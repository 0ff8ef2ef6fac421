//! The CFG data model: bodies made of basic blocks, each a run of statements
//! closed by exactly one terminator, together with places, operands and
//! rvalues, debug-info entries, and the structural well-formedness predicate
//! that every pass preserves.
//!
//! Each executable type has a mathematical view (`...V`) over `Seq`, and the
//! contracts of the passes speak of those views.

use vstd::prelude::*;

verus! {

/// The strictly ordered pipeline phase a body has reached. Passes may advance
/// it, never regress it.
#[derive(Clone, Copy, PartialEq, Eq, Structural, Debug)]
pub enum Phase {
    Built,
    ConstsPromoted,
    DropsLowered,
    Deaggregated,
    GeneratorsLowered,
    Optimized,
}

/// Position of a phase in the pipeline order.
pub open spec fn phase_order(p: Phase) -> int {
    match p {
        Phase::Built => 0,
        Phase::ConstsPromoted => 1,
        Phase::DropsLowered => 2,
        Phase::Deaggregated => 3,
        Phase::GeneratorsLowered => 4,
        Phase::Optimized => 5,
    }
}

/// Executable counterpart of [`phase_order`].
pub fn phase_index(p: Phase) -> (n: u8)
    ensures
        n as int == phase_order(p),
{
    match p {
        Phase::Built => 0,
        Phase::ConstsPromoted => 1,
        Phase::DropsLowered => 2,
        Phase::Deaggregated => 3,
        Phase::GeneratorsLowered => 4,
        Phase::Optimized => 5,
    }
}

/// What kind of definition a body belongs to.
#[derive(Clone, Copy, PartialEq, Eq, Structural, Debug)]
pub enum DefKind {
    Fn,
    AssocFn,
    Ctor,
    Closure,
    Generator,
    Other,
}

/// Which function or closure a body belongs to.
#[derive(Clone, Copy, PartialEq, Eq, Structural, Debug)]
pub struct Source {
    pub def_id: usize,
    pub kind: DefKind,
}

/// Declaration of one local variable: its type (an index into the caller's
/// type table) and its mutability.
#[derive(Clone, Copy, PartialEq, Eq, Structural, Debug)]
pub struct LocalDecl {
    pub ty: usize,
    pub mutable: bool,
}

/// A literal constant: its type and, when the constant is a fully evaluated
/// scalar, its bit representation. `bits == None` stands for a constant that
/// cannot (yet) be evaluated to bits.
#[derive(Clone, Copy, Debug, PartialEq)]
pub struct Constant {
    pub ty: usize,
    pub bits: Option<u128>,
}

/// One projection step applied to a local.
#[derive(Clone, Copy, PartialEq, Eq, Structural, Debug)]
pub enum ProjKind {
    Deref,
    Field(u32),
    /// Indexing by the value of another local.
    Index(usize),
    Downcast(u32),
}

/// A projection step together with the type of the place it produces.
#[derive(Clone, Copy, PartialEq, Eq, Structural, Debug)]
pub struct ProjElem {
    pub kind: ProjKind,
    pub ty: usize,
}

/// A memory location: a local plus a sequence of projections.
#[derive(Clone, Debug, PartialEq)]
pub struct Place {
    pub local: usize,
    pub projection: Vec<ProjElem>,
}

/// View of [`Place`].
#[verifier::ext_equal]
pub struct PlaceV {
    pub local: usize,
    pub projection: Seq<ProjElem>,
}

impl View for Place {
    type V = PlaceV;

    open spec fn view(&self) -> PlaceV {
        PlaceV { local: self.local, projection: self.projection@ }
    }
}

impl PlaceV {
    /// The bare local, if the place carries no projection.
    pub open spec fn as_local(self) -> Option<usize> {
        if self.projection.len() == 0 {
            Some(self.local)
        } else {
            None
        }
    }
}

impl Place {
    /// A place that is exactly the given local.
    pub fn from_local(local: usize) -> (p: Place)
        ensures
            p@ == (PlaceV { local, projection: Seq::<ProjElem>::empty() }),
    {
        Place { local, projection: Vec::new() }
    }

    /// The bare local, if the place carries no projection.
    pub fn as_local(&self) -> (r: Option<usize>)
        ensures
            r == self@.as_local(),
    {
        if self.projection.len() == 0 {
            Some(self.local)
        } else {
            None
        }
    }
}

/// Structural equality of places.
pub fn place_eq(a: &Place, b: &Place) -> (r: bool)
    ensures
        r <==> a@ == b@,
{
    if a.local != b.local {
        return false;
    }
    if a.projection.len() != b.projection.len() {
        assert(a@.projection.len() != b@.projection.len());
        return false;
    }
    let n = a.projection.len();
    let mut i: usize = 0;
    while i < n
        invariant
            n == a.projection.len(),
            n == b.projection.len(),
            a.local == b.local,
            i <= n,
            forall|k: int| 0 <= k < i ==> a@.projection[k] == b@.projection[k],
        decreases n - i,
    {
        if a.projection[i] != b.projection[i] {
            return false;
        }
        i = i + 1;
    }
    proof {
        assert(a@.projection =~= b@.projection);
        assert(a@ =~= b@);
    }
    true
}

/// What an operand reads: a place by copy or move, or a literal constant.
#[derive(Clone, Debug, PartialEq)]
pub enum Operand {
    Copy(Place),
    Move(Place),
    Constant(Constant),
}

/// View of [`Operand`].
#[verifier::ext_equal]
pub enum OperandV {
    Copy(PlaceV),
    Move(PlaceV),
    Constant(Constant),
}

impl View for Operand {
    type V = OperandV;

    open spec fn view(&self) -> OperandV {
        match self {
            Operand::Copy(p) => OperandV::Copy(p@),
            Operand::Move(p) => OperandV::Move(p@),
            Operand::Constant(c) => OperandV::Constant(*c),
        }
    }
}

impl OperandV {
    /// The place an operand reads, if it is not a constant.
    pub open spec fn place(self) -> Option<PlaceV> {
        match self {
            OperandV::Copy(p) => Some(p),
            OperandV::Move(p) => Some(p),
            OperandV::Constant(_) => None,
        }
    }

    /// The constant an operand carries, if any.
    pub open spec fn constant(self) -> Option<Constant> {
        match self {
            OperandV::Constant(c) => Some(c),
            _ => None,
        }
    }
}

/// The right-hand side of an assignment.
#[derive(Clone, Debug, PartialEq)]
pub enum Rvalue {
    Use(Operand),
    /// A reference to a place; `true` marks a mutable borrow.
    Ref(bool, Place),
    /// A raw address of a place; `true` marks a mutable pointer.
    AddressOf(bool, Place),
    Discriminant(Place),
    UnaryOp(Operand),
    BinaryOp(Operand, Operand),
    Cast(Operand),
    Aggregate(Vec<Operand>),
}

/// View of [`Rvalue`].
#[verifier::ext_equal]
pub enum RvalueV {
    Use(OperandV),
    Ref(bool, PlaceV),
    AddressOf(bool, PlaceV),
    Discriminant(PlaceV),
    UnaryOp(OperandV),
    BinaryOp(OperandV, OperandV),
    Cast(OperandV),
    Aggregate(Seq<OperandV>),
}

impl View for Rvalue {
    type V = RvalueV;

    open spec fn view(&self) -> RvalueV {
        match self {
            Rvalue::Use(o) => RvalueV::Use(o@),
            Rvalue::Ref(m, p) => RvalueV::Ref(*m, p@),
            Rvalue::AddressOf(m, p) => RvalueV::AddressOf(*m, p@),
            Rvalue::Discriminant(p) => RvalueV::Discriminant(p@),
            Rvalue::UnaryOp(o) => RvalueV::UnaryOp(o@),
            Rvalue::BinaryOp(a, b) => RvalueV::BinaryOp(a@, b@),
            Rvalue::Cast(o) => RvalueV::Cast(o@),
            Rvalue::Aggregate(os) => RvalueV::Aggregate(os@.map_values(|o: Operand| o@)),
        }
    }
}

/// One statement of a basic block.
#[derive(Clone, Debug, PartialEq)]
pub enum Statement {
    Assign(Place, Rvalue),
    SetDiscriminant(Place, u32),
    Deinit(Place),
    CopyNonOverlapping(Operand, Operand, Operand),
    Retag(Place),
    StorageLive(usize),
    StorageDead(usize),
    FakeRead(Place),
    AscribeUserType(Place),
    Coverage,
    Nop,
}

/// View of [`Statement`].
#[verifier::ext_equal]
pub enum StatementV {
    Assign(PlaceV, RvalueV),
    SetDiscriminant(PlaceV, u32),
    Deinit(PlaceV),
    CopyNonOverlapping(OperandV, OperandV, OperandV),
    Retag(PlaceV),
    StorageLive(usize),
    StorageDead(usize),
    FakeRead(PlaceV),
    AscribeUserType(PlaceV),
    Coverage,
    Nop,
}

impl View for Statement {
    type V = StatementV;

    open spec fn view(&self) -> StatementV {
        match self {
            Statement::Assign(p, r) => StatementV::Assign(p@, r@),
            Statement::SetDiscriminant(p, v) => StatementV::SetDiscriminant(p@, *v),
            Statement::Deinit(p) => StatementV::Deinit(p@),
            Statement::CopyNonOverlapping(a, b, c) => StatementV::CopyNonOverlapping(a@, b@, c@),
            Statement::Retag(p) => StatementV::Retag(p@),
            Statement::StorageLive(l) => StatementV::StorageLive(*l),
            Statement::StorageDead(l) => StatementV::StorageDead(*l),
            Statement::FakeRead(p) => StatementV::FakeRead(p@),
            Statement::AscribeUserType(p) => StatementV::AscribeUserType(p@),
            Statement::Coverage => StatementV::Coverage,
            Statement::Nop => StatementV::Nop,
        }
    }
}

/// The value-to-target table of a `SwitchInt`: `targets` has exactly one more
/// entry than `values`; the extra, last entry is the `otherwise` target.
#[derive(Clone, Debug, PartialEq)]
pub struct SwitchTargets {
    pub values: Vec<u128>,
    pub targets: Vec<usize>,
}

/// View of [`SwitchTargets`].
#[verifier::ext_equal]
pub struct SwitchTargetsV {
    pub values: Seq<u128>,
    pub targets: Seq<usize>,
}

impl View for SwitchTargets {
    type V = SwitchTargetsV;

    open spec fn view(&self) -> SwitchTargetsV {
        SwitchTargetsV { values: self.values@, targets: self.targets@ }
    }
}

impl SwitchTargetsV {
    /// The table is well shaped: one more target than values.
    pub open spec fn wf(self) -> bool {
        self.targets.len() == self.values.len() + 1
    }

    /// The `otherwise` target.
    pub open spec fn otherwise(self) -> usize
        recommends
            self.targets.len() > 0,
    {
        self.targets[self.targets.len() - 1]
    }

    /// The target the switch jumps to for a given discriminant value: the
    /// target of the first matching value entry, or `otherwise`.
    pub open spec fn target_for_value(self, v: u128) -> usize
        recommends
            self.wf(),
        decreases self.values.len(),
    {
        if self.values.len() == 0 {
            self.otherwise()
        } else if self.values[0] == v {
            self.targets[0]
        } else {
            (SwitchTargetsV { values: self.values.drop_first(), targets: self.targets.drop_first() }).target_for_value(
                v,
            )
        }
    }
}

impl SwitchTargets {
    /// Executable counterpart of [`SwitchTargetsV::target_for_value`].
    pub fn target_for_value(&self, v: u128) -> (t: usize)
        requires
            self@.wf(),
        ensures
            t == self@.target_for_value(v),
    {
        let n = self.values.len();
        let mut i: usize = 0;
        proof {
            assert(self@.values.skip(0) =~= self@.values);
            assert(self@.targets.skip(0) =~= self@.targets);
        }
        while i < n
            invariant
                self@.wf(),
                n == self.values.len(),
                i <= n,
                self@.target_for_value(v) == (SwitchTargetsV {
                    values: self@.values.skip(i as int),
                    targets: self@.targets.skip(i as int),
                }).target_for_value(v),
            decreases n - i,
        {
            proof {
                assert(self@.values.skip(i as int)[0] == self@.values[i as int]);
                assert(self@.values.skip(i as int).drop_first() =~= self@.values.skip(i + 1));
                assert(self@.targets.skip(i as int).drop_first() =~= self@.targets.skip(i + 1));
            }
            if self.values[i] == v {
                return self.targets[i];
            }
            i = i + 1;
        }
        proof {
            assert(self@.values.skip(n as int).len() == 0);
            assert(self@.targets.skip(n as int)[self@.targets.skip(n as int).len() - 1]
                == self@.targets[self@.targets.len() - 1]);
        }
        self.targets[self.targets.len() - 1]
    }
}

/// The control transfer closing a basic block.
#[derive(Clone, Debug, PartialEq)]
pub enum Terminator {
    Goto { target: usize },
    SwitchInt { discr: Operand, switch_ty: usize, targets: SwitchTargets },
    Return,
    Unreachable,
    Abort,
    Resume,
    Call {
        func: Operand,
        args: Vec<Operand>,
        /// Identity of the callee, when it is a known function; `None` for an
        /// indirect call through a function pointer.
        callee: Option<usize>,
        /// Calling-convention tag of the callee's signature.
        callee_abi: usize,
        destination: Option<(Place, usize)>,
        cleanup: Option<usize>,
    },
    Drop { place: Place, target: usize, unwind: Option<usize> },
    DropAndReplace { place: Place, value: Operand, target: usize, unwind: Option<usize> },
    Assert { cond: Operand, expected: bool, target: usize, cleanup: Option<usize> },
    Yield { value: Operand, resume: usize, resume_arg: Place, drop: Option<usize> },
    GeneratorDrop,
    FalseEdge { real_target: usize, imaginary_target: usize },
    FalseUnwind { real_target: usize, unwind: Option<usize> },
    InlineAsm { destination: Option<usize>, cleanup: Option<usize> },
}

/// View of [`Terminator`].
#[verifier::ext_equal]
pub enum TerminatorV {
    Goto { target: usize },
    SwitchInt { discr: OperandV, switch_ty: usize, targets: SwitchTargetsV },
    Return,
    Unreachable,
    Abort,
    Resume,
    Call {
        func: OperandV,
        args: Seq<OperandV>,
        callee: Option<usize>,
        callee_abi: usize,
        destination: Option<(PlaceV, usize)>,
        cleanup: Option<usize>,
    },
    Drop { place: PlaceV, target: usize, unwind: Option<usize> },
    DropAndReplace { place: PlaceV, value: OperandV, target: usize, unwind: Option<usize> },
    Assert { cond: OperandV, expected: bool, target: usize, cleanup: Option<usize> },
    Yield { value: OperandV, resume: usize, resume_arg: PlaceV, drop: Option<usize> },
    GeneratorDrop,
    FalseEdge { real_target: usize, imaginary_target: usize },
    FalseUnwind { real_target: usize, unwind: Option<usize> },
    InlineAsm { destination: Option<usize>, cleanup: Option<usize> },
}

impl View for Terminator {
    type V = TerminatorV;

    open spec fn view(&self) -> TerminatorV {
        match self {
            Terminator::Goto { target } => TerminatorV::Goto { target: *target },
            Terminator::SwitchInt { discr, switch_ty, targets } => TerminatorV::SwitchInt {
                discr: discr@,
                switch_ty: *switch_ty,
                targets: targets@,
            },
            Terminator::Return => TerminatorV::Return,
            Terminator::Unreachable => TerminatorV::Unreachable,
            Terminator::Abort => TerminatorV::Abort,
            Terminator::Resume => TerminatorV::Resume,
            Terminator::Call { func, args, callee, callee_abi, destination, cleanup } => TerminatorV::Call {
                func: func@,
                args: args@.map_values(|o: Operand| o@),
                callee: *callee,
                callee_abi: *callee_abi,
                destination: match destination {
                    Some((p, t)) => Some((p@, *t)),
                    None => None,
                },
                cleanup: *cleanup,
            },
            Terminator::Drop { place, target, unwind } => TerminatorV::Drop {
                place: place@,
                target: *target,
                unwind: *unwind,
            },
            Terminator::DropAndReplace { place, value, target, unwind } => TerminatorV::DropAndReplace {
                place: place@,
                value: value@,
                target: *target,
                unwind: *unwind,
            },
            Terminator::Assert { cond, expected, target, cleanup } => TerminatorV::Assert {
                cond: cond@,
                expected: *expected,
                target: *target,
                cleanup: *cleanup,
            },
            Terminator::Yield { value, resume, resume_arg, drop } => TerminatorV::Yield {
                value: value@,
                resume: *resume,
                resume_arg: resume_arg@,
                drop: *drop,
            },
            Terminator::GeneratorDrop => TerminatorV::GeneratorDrop,
            Terminator::FalseEdge { real_target, imaginary_target } => TerminatorV::FalseEdge {
                real_target: *real_target,
                imaginary_target: *imaginary_target,
            },
            Terminator::FalseUnwind { real_target, unwind } => TerminatorV::FalseUnwind {
                real_target: *real_target,
                unwind: *unwind,
            },
            Terminator::InlineAsm { destination, cleanup } => TerminatorV::InlineAsm {
                destination: *destination,
                cleanup: *cleanup,
            },
        }
    }
}

/// A possibly absent target as a sequence of zero or one block ids.
pub open spec fn opt_target(o: Option<usize>) -> Seq<usize> {
    match o {
        Some(t) => seq![t],
        None => Seq::<usize>::empty(),
    }
}

impl TerminatorV {
    /// Every block id this terminator can transfer control to, unwind edges
    /// included.
    pub open spec fn succs(self) -> Seq<usize> {
        match self {
            TerminatorV::Goto { target } => seq![target],
            TerminatorV::SwitchInt { targets, .. } => targets.targets,
            TerminatorV::Return => Seq::<usize>::empty(),
            TerminatorV::Unreachable => Seq::<usize>::empty(),
            TerminatorV::Abort => Seq::<usize>::empty(),
            TerminatorV::Resume => Seq::<usize>::empty(),
            TerminatorV::GeneratorDrop => Seq::<usize>::empty(),
            TerminatorV::Call { destination, cleanup, .. } => (match destination {
                Some((_, t)) => seq![t],
                None => Seq::<usize>::empty(),
            }) + opt_target(cleanup),
            TerminatorV::Drop { target, unwind, .. } => seq![target] + opt_target(unwind),
            TerminatorV::DropAndReplace { target, unwind, .. } => seq![target] + opt_target(unwind),
            TerminatorV::Assert { target, cleanup, .. } => seq![target] + opt_target(cleanup),
            TerminatorV::Yield { resume, drop, .. } => seq![resume] + opt_target(drop),
            TerminatorV::FalseEdge { real_target, imaginary_target } => seq![
                real_target,
                imaginary_target,
            ],
            TerminatorV::FalseUnwind { real_target, unwind } => seq![real_target] + opt_target(
                unwind,
            ),
            TerminatorV::InlineAsm { destination, cleanup } => opt_target(destination) + opt_target(
                cleanup,
            ),
        }
    }

    /// The unwind edge of this terminator: `None` when the terminator has no
    /// such field, `Some(edge)` when it has one.
    pub open spec fn unwind(self) -> Option<Option<usize>> {
        match self {
            TerminatorV::Call { cleanup, .. } => Some(cleanup),
            TerminatorV::Drop { unwind, .. } => Some(unwind),
            TerminatorV::DropAndReplace { unwind, .. } => Some(unwind),
            TerminatorV::Assert { cleanup, .. } => Some(cleanup),
            TerminatorV::FalseUnwind { unwind, .. } => Some(unwind),
            TerminatorV::InlineAsm { cleanup, .. } => Some(cleanup),
            _ => None,
        }
    }

    /// The same terminator with its unwind edge replaced; a terminator
    /// without an unwind field is returned unchanged.
    pub open spec fn with_unwind(self, e: Option<usize>) -> TerminatorV {
        match self {
            TerminatorV::Call { func, args, callee, callee_abi, destination, .. } => TerminatorV::Call {
                func,
                args,
                callee,
                callee_abi,
                destination,
                cleanup: e,
            },
            TerminatorV::Drop { place, target, .. } => TerminatorV::Drop { place, target, unwind: e },
            TerminatorV::DropAndReplace { place, value, target, .. } => TerminatorV::DropAndReplace {
                place,
                value,
                target,
                unwind: e,
            },
            TerminatorV::Assert { cond, expected, target, .. } => TerminatorV::Assert {
                cond,
                expected,
                target,
                cleanup: e,
            },
            TerminatorV::FalseUnwind { real_target, .. } => TerminatorV::FalseUnwind {
                real_target,
                unwind: e,
            },
            TerminatorV::InlineAsm { destination, .. } => TerminatorV::InlineAsm {
                destination,
                cleanup: e,
            },
            _ => self,
        }
    }
}

impl Terminator {
    /// Replaces the unwind edge, if this terminator carries one.
    pub fn set_unwind(&mut self, e: Option<usize>)
        ensures
            final (self)@ == old(self)@.with_unwind(e),
    {
        match self {
            Terminator::Call { cleanup, .. } => {
                *cleanup = e;
            },
            Terminator::Drop { unwind, .. } => {
                *unwind = e;
            },
            Terminator::DropAndReplace { unwind, .. } => {
                *unwind = e;
            },
            Terminator::Assert { cleanup, .. } => {
                *cleanup = e;
            },
            Terminator::FalseUnwind { unwind, .. } => {
                *unwind = e;
            },
            Terminator::InlineAsm { cleanup, .. } => {
                *cleanup = e;
            },
            _ => {},
        }
    }

    /// Reads the unwind edge, if this terminator carries one.
    pub fn get_unwind(&self) -> (r: Option<Option<usize>>)
        ensures
            r == self@.unwind(),
    {
        match self {
            Terminator::Call { cleanup, .. } => Some(*cleanup),
            Terminator::Drop { unwind, .. } => Some(*unwind),
            Terminator::DropAndReplace { unwind, .. } => Some(*unwind),
            Terminator::Assert { cleanup, .. } => Some(*cleanup),
            Terminator::FalseUnwind { unwind, .. } => Some(*unwind),
            Terminator::InlineAsm { cleanup, .. } => Some(*cleanup),
            _ => None,
        }
    }
}

/// A basic block: statements, exactly one terminator, and the flag that marks
/// an unwind-handling (cleanup) block.
#[derive(Clone, Debug, PartialEq)]
pub struct BasicBlock {
    pub statements: Vec<Statement>,
    pub terminator: Terminator,
    pub is_cleanup: bool,
}

/// View of [`BasicBlock`].
#[verifier::ext_equal]
pub struct BasicBlockV {
    pub statements: Seq<StatementV>,
    pub terminator: TerminatorV,
    pub is_cleanup: bool,
}

impl View for BasicBlock {
    type V = BasicBlockV;

    open spec fn view(&self) -> BasicBlockV {
        BasicBlockV {
            statements: self.statements@.map_values(|s: Statement| s@),
            terminator: self.terminator@,
            is_cleanup: self.is_cleanup,
        }
    }
}

/// What a debug-info entry lets a debugger observe: a place or a constant.
#[derive(Clone, Debug, PartialEq)]
pub enum DebugContents {
    Place(Place),
    Const(Constant),
}

/// View of [`DebugContents`].
#[verifier::ext_equal]
pub enum DebugContentsV {
    Place(PlaceV),
    Const(Constant),
}

impl View for DebugContents {
    type V = DebugContentsV;

    open spec fn view(&self) -> DebugContentsV {
        match self {
            DebugContents::Place(p) => DebugContentsV::Place(p@),
            DebugContents::Const(c) => DebugContentsV::Const(*c),
        }
    }
}

/// One debug-info entry: a source-level name bound to a place or constant.
#[derive(Clone, Debug, PartialEq)]
pub struct VarDebugInfo {
    /// Interned source-level name.
    pub name: usize,
    pub value: DebugContents,
}

/// View of [`VarDebugInfo`].
#[verifier::ext_equal]
pub struct VarDebugInfoV {
    pub name: usize,
    pub value: DebugContentsV,
}

impl View for VarDebugInfo {
    type V = VarDebugInfoV;

    open spec fn view(&self) -> VarDebugInfoV {
        VarDebugInfoV { name: self.name, value: self.value@ }
    }
}

/// A function body: its CFG, local declarations, debug info, phase marker and
/// source key. Local 0 is the return-value slot; locals `1..=arg_count` are
/// the arguments; block 0 is the entry block.
#[derive(Clone, Debug, PartialEq)]
pub struct Body {
    pub basic_blocks: Vec<BasicBlock>,
    pub local_decls: Vec<LocalDecl>,
    pub arg_count: usize,
    pub var_debug_info: Vec<VarDebugInfo>,
    pub phase: Phase,
    pub source: Source,
}

/// View of [`Body`].
#[verifier::ext_equal]
pub struct BodyV {
    pub blocks: Seq<BasicBlockV>,
    pub locals: Seq<LocalDecl>,
    pub arg_count: usize,
    pub debug: Seq<VarDebugInfoV>,
    pub phase: Phase,
    pub source: Source,
}

impl View for Body {
    type V = BodyV;

    open spec fn view(&self) -> BodyV {
        BodyV {
            blocks: self.basic_blocks@.map_values(|b: BasicBlock| b@),
            locals: self.local_decls@,
            arg_count: self.arg_count,
            debug: self.var_debug_info@.map_values(|d: VarDebugInfo| d@),
            phase: self.phase,
            source: self.source,
        }
    }
}

/// A terminator is structurally sound inside a body: every target names an
/// existing block, and its unwind edge, if any, targets a cleanup block.
pub open spec fn term_ok(t: TerminatorV, blocks: Seq<BasicBlockV>) -> bool {
    &&& forall|j: int| 0 <= j < t.succs().len() ==> #[trigger] t.succs()[j] < blocks.len()
    &&& match t.unwind() {
        Some(Some(u)) => u < blocks.len() && blocks[u as int].is_cleanup,
        _ => true,
    }
}

/// What a constant evaluates to, read at the given type: its bits when it is
/// an evaluated scalar of exactly that type.
pub open spec fn const_eval_bits(c: Constant, ty: usize) -> Option<u128> {
    if c.ty == ty {
        c.bits
    } else {
        None
    }
}

/// Executable counterpart of [`const_eval_bits`].
pub fn const_try_eval_bits(c: &Constant, ty: usize) -> (r: Option<u128>)
    ensures
        r == const_eval_bits(*c, ty),
{
    if c.ty == ty {
        c.bits
    } else {
        None
    }
}

/// What a constant evaluates to as a boolean: only the scalar bits 0 and 1
/// stand for a boolean value.
pub open spec fn const_eval_bool(c: Constant) -> Option<bool> {
    if c.bits == Some(1u128) {
        Some(true)
    } else if c.bits == Some(0u128) {
        Some(false)
    } else {
        None
    }
}

/// Executable counterpart of [`const_eval_bool`].
pub fn const_try_eval_bool(c: &Constant) -> (r: Option<bool>)
    ensures
        r == const_eval_bool(*c),
{
    match c.bits {
        Some(b) => {
            if b == 1 {
                Some(true)
            } else if b == 0 {
                Some(false)
            } else {
                None
            }
        },
        None => None,
    }
}

/// Structural soundness of a terminator only depends on the block count and
/// the cleanup flags, so it carries over to any block sequence of the same
/// shape.
pub proof fn lemma_term_ok_same_shape(t: TerminatorV, b1: Seq<BasicBlockV>, b2: Seq<BasicBlockV>)
    requires
        term_ok(t, b1),
        b2.len() == b1.len(),
        forall|u: int| 0 <= u < b1.len() ==> #[trigger] b2[u].is_cleanup == b1[u].is_cleanup,
    ensures
        term_ok(t, b2),
{
}

/// The type of the value a place refers to: the type produced by its last
/// projection step, or the declared type of its local; `None` when the local
/// is not declared.
pub open spec fn place_ty(locals: Seq<LocalDecl>, p: PlaceV) -> Option<usize> {
    if p.projection.len() > 0 {
        Some(p.projection.last().ty)
    } else if p.local < locals.len() {
        Some(locals[p.local as int].ty)
    } else {
        None
    }
}

/// Executable counterpart of [`place_ty`].
pub fn place_ty_of(locals: &Vec<LocalDecl>, p: &Place) -> (r: Option<usize>)
    ensures
        r == place_ty(locals@, p@),
{
    if p.projection.len() > 0 {
        Some(p.projection[p.projection.len() - 1].ty)
    } else if p.local < locals.len() {
        Some(locals[p.local].ty)
    } else {
        None
    }
}

/// Unfolds one step of `filter` over a growing prefix.
pub proof fn lemma_filter_take_step<A>(s: Seq<A>, pred: spec_fn(A) -> bool, i: int)
    requires
        0 <= i < s.len(),
    ensures
        s.take(i + 1).filter(pred) == (if pred(s[i]) {
            s.take(i).filter(pred).push(s[i])
        } else {
            s.take(i).filter(pred)
        }),
{
    reveal_with_fuel(Seq::<int>::filter, 2);
    assert(s.take(i + 1).drop_last() =~= s.take(i));
    assert(s.take(i + 1).last() == s[i]);
    assert(s.take(i + 1).len() == i + 1);
    assert(s.take(i + 1).filter(pred) == (if pred(s.take(i + 1).last()) {
        s.take(i + 1).drop_last().filter(pred).push(s.take(i + 1).last())
    } else {
        s.take(i + 1).drop_last().filter(pred)
    }));
}

/// The placeholder left in a body while one of its blocks is taken out for
/// rewriting: no statements, an `Unreachable` terminator, the same cleanup
/// flag.
pub open spec fn stub_block(of: BasicBlockV) -> BasicBlockV {
    BasicBlockV {
        statements: Seq::<StatementV>::empty(),
        terminator: TerminatorV::Unreachable,
        is_cleanup: of.is_cleanup,
    }
}

impl Body {
    /// Takes block `i` out of the body for rewriting, leaving a stub with
    /// the same cleanup flag in its slot.
    pub fn take_block(&mut self, i: usize) -> (bb: BasicBlock)
        requires
            i < old(self).basic_blocks@.len(),
        ensures
            bb@ == old(self)@.blocks[i as int],
            final (self)@.blocks == old(self)@.blocks.update(
                i as int,
                stub_block(old(self)@.blocks[i as int]),
            ),
            final (self)@.locals == old(self)@.locals,
            final (self)@.arg_count == old(self)@.arg_count,
            final (self)@.debug == old(self)@.debug,
            final (self)@.phase == old(self)@.phase,
            final (self)@.source == old(self)@.source,
    {
        let cl = self.basic_blocks[i].is_cleanup;
        let mut stub = BasicBlock {
            statements: Vec::new(),
            terminator: Terminator::Unreachable,
            is_cleanup: cl,
        };
        core::mem::swap(&mut self.basic_blocks[i], &mut stub);
        proof {
            assert(stub@ == old(self)@.blocks[i as int]);
            assert(self@.blocks =~~= old(self)@.blocks.update(
                i as int,
                stub_block(old(self)@.blocks[i as int]),
            ));
        }
        stub
    }

    /// Puts a rewritten block back into slot `i`.
    pub fn put_block(&mut self, i: usize, bb: BasicBlock)
        requires
            i < old(self).basic_blocks@.len(),
        ensures
            final (self)@.blocks == old(self)@.blocks.update(i as int, bb@),
            final (self)@.locals == old(self)@.locals,
            final (self)@.arg_count == old(self)@.arg_count,
            final (self)@.debug == old(self)@.debug,
            final (self)@.phase == old(self)@.phase,
            final (self)@.source == old(self)@.source,
    {
        let ghost bbv = bb@;
        let mut tmp = bb;
        core::mem::swap(&mut self.basic_blocks[i], &mut tmp);
        proof {
            assert(self@.blocks =~~= old(self)@.blocks.update(i as int, bbv));
        }
    }
}

/// Structural soundness also survives appending blocks, as long as the
/// original blocks keep their cleanup flags.
pub proof fn lemma_term_ok_grow(t: TerminatorV, b1: Seq<BasicBlockV>, b2: Seq<BasicBlockV>)
    requires
        term_ok(t, b1),
        b2.len() >= b1.len(),
        forall|u: int| 0 <= u < b1.len() ==> #[trigger] b2[u].is_cleanup == b1[u].is_cleanup,
    ensures
        term_ok(t, b2),
{
}

/// Structural well-formedness of a body: the entry block exists, local 0 (the
/// return slot) and the argument locals are declared, and every block's one
/// terminator is structurally sound.
pub open spec fn body_wf(b: BodyV) -> bool {
    &&& b.blocks.len() >= 1
    &&& b.locals.len() >= 1 + b.arg_count
    &&& forall|i: int| 0 <= i < b.blocks.len() ==> term_ok(#[trigger] b.blocks[i].terminator, b.blocks)
}

} // verus!
