use mir_transform::context::{Ctx, Diagnostic, FnInfo, PassName, Session, TyShape, TypeInfo};
use mir_transform::ir::{
    BasicBlock, Body, Constant, DefKind, LocalDecl, Operand, Phase, Place, ProjElem, ProjKind,
    Rvalue, Source, Statement, SwitchTargets, Terminator, VarDebugInfo,
};

fn sess() -> Session {
    Session {
        mir_opt_level: 4,
        unsound_mir_opts: true,
        validate_mir: true,
        emit_lifetime_markers: false,
        panic_strategy_unwind: true,
        panic_in_drop_unwind: false,
    }
}

fn ctx_with(types: Vec<TypeInfo>, fns: Vec<FnInfo>, abi_can_unwind: Vec<bool>) -> Ctx {
    Ctx {
        sess: sess(),
        types,
        fns,
        abi_can_unwind,
        fuel: None,
        overridden_passes: Vec::new(),
        dumps: Vec::new(),
        diagnostics: Vec::new(),
        reported_derives: Vec::new(),
    }
}

fn plain_ctx() -> Ctx {
    ctx_with(Vec::new(), Vec::new(), Vec::new())
}

fn ty(shape: TyShape, is_union: bool, zst: Option<bool>, needs_drop: bool) -> TypeInfo {
    TypeInfo { shape, is_union, packed: None, align: 1, zst, needs_drop, normalized: None }
}

fn bare(l: usize) -> Place {
    Place::from_local(l)
}

fn cbits(t: usize, v: u128) -> Constant {
    Constant { ty: t, bits: Some(v) }
}

fn assign_const(l: usize, t: usize, v: u128) -> Statement {
    Statement::Assign(bare(l), Rvalue::Use(Operand::Constant(cbits(t, v))))
}

fn block(statements: Vec<Statement>, terminator: Terminator) -> BasicBlock {
    BasicBlock { statements, terminator, is_cleanup: false }
}

fn cleanup_block(statements: Vec<Statement>, terminator: Terminator) -> BasicBlock {
    BasicBlock { statements, terminator, is_cleanup: true }
}

fn body_of(blocks: Vec<BasicBlock>, nlocals: usize) -> Body {
    let mut local_decls = Vec::new();
    let mut i: usize = 0;
    while i < nlocals {
        local_decls.push(LocalDecl { ty: 0, mutable: false });
        i += 1;
    }
    Body {
        basic_blocks: blocks,
        local_decls,
        arg_count: 0,
        var_debug_info: Vec::new(),
        phase: Phase::Built,
        source: Source { def_id: 0, kind: DefKind::Fn },
    }
}

fn switch(discr: Operand, switch_ty: usize, values: Vec<u128>, targets: Vec<usize>) -> Terminator {
    Terminator::SwitchInt { discr, switch_ty, targets: SwitchTargets { values, targets } }
}

#[test]
fn switch_table_picks_matching_arm_and_default() {
    let tv = SwitchTargets { values: vec![1, 2], targets: vec![10, 11, 12] };
    assert_eq!(tv.target_for_value(1), 10);
    assert_eq!(tv.target_for_value(2), 11);
    assert_eq!(tv.target_for_value(5), 12);
}

#[test]
fn validate_body_accepts_sound_and_rejects_bad_target() {
    let good = body_of(vec![block(vec![], Terminator::Return)], 1);
    assert!(mir_transform::pass_manager::validate_body(&good));
    let bad = body_of(vec![block(vec![], Terminator::Goto { target: 5 })], 1);
    assert!(!mir_transform::pass_manager::validate_body(&bad));
    let bad_unwind = body_of(
        vec![
            block(
                vec![],
                Terminator::Drop { place: bare(0), target: 1, unwind: Some(1) },
            ),
            block(vec![], Terminator::Return),
        ],
        1,
    );
    // The unwind edge leads to a non-cleanup block.
    assert!(!mir_transform::pass_manager::validate_body(&bad_unwind));
}

#[test]
fn const_goto_resolves_switch_to_selected_arm() {
    // bb0: _1 = const 3; goto -> bb1
    // bb1: switchInt(_1) -> [3: bb2, otherwise: bb3]
    let mut body = body_of(
        vec![
            block(vec![assign_const(1, 0, 3)], Terminator::Goto { target: 1 }),
            block(
                vec![],
                switch(Operand::Copy(bare(1)), 0, vec![3], vec![2, 3]),
            ),
            block(vec![], Terminator::Return),
            block(vec![], Terminator::Unreachable),
        ],
        2,
    );
    let mut ctx = plain_ctx();
    let pass = mir_transform::const_goto::ConstGoto;
    pass.run_pass(&mut ctx, &mut body);
    // bb0 jumps straight to the return arm; the switch block is dead and
    // cleaned up.
    assert_eq!(body.basic_blocks.len(), 2);
    assert_eq!(body.basic_blocks[0].terminator, Terminator::Goto { target: 1 });
    assert_eq!(body.basic_blocks[1].terminator, Terminator::Return);
    assert_eq!(body.basic_blocks[0].statements, vec![assign_const(1, 0, 3)]);
}

#[test]
fn unreachable_switch_collapses_to_live_arm() {
    let mut body = body_of(
        vec![
            block(
                vec![],
                switch(Operand::Copy(bare(1)), 0, vec![0, 1], vec![1, 2, 3]),
            ),
            block(vec![], Terminator::Unreachable),
            block(vec![], Terminator::Return),
            block(vec![], Terminator::Unreachable),
        ],
        2,
    );
    let mut ctx = plain_ctx();
    let pass = mir_transform::unreachable_prop::UnreachablePropagation;
    pass.run_pass(&mut ctx, &mut body);
    assert_eq!(body.basic_blocks.len(), 2);
    assert_eq!(body.basic_blocks[0].terminator, Terminator::Goto { target: 1 });
    assert_eq!(body.basic_blocks[1].terminator, Terminator::Return);
}

#[test]
fn unreachable_switch_with_all_arms_dead_becomes_unreachable() {
    let mut body = body_of(
        vec![
            block(
                vec![],
                switch(Operand::Copy(bare(1)), 0, vec![0, 1], vec![1, 2, 3]),
            ),
            block(vec![], Terminator::Unreachable),
            block(vec![], Terminator::Unreachable),
            block(vec![], Terminator::Unreachable),
        ],
        2,
    );
    let mut ctx = plain_ctx();
    let pass = mir_transform::unreachable_prop::UnreachablePropagation;
    pass.run_pass(&mut ctx, &mut body);
    assert_eq!(body.basic_blocks.len(), 1);
    assert_eq!(body.basic_blocks[0].terminator, Terminator::Unreachable);
}

#[test]
fn zst_assignment_to_plain_struct_field_is_removed() {
    // Type 0: a plain aggregate; type 1: a zero-sized field type.
    let types = vec![
        ty(TyShape::Adt, false, Some(false), false),
        ty(TyShape::Adt, false, Some(true), false),
    ];
    let place = Place {
        local: 1,
        projection: vec![ProjElem { kind: ProjKind::Field(0), ty: 1 }],
    };
    let mut body = body_of(
        vec![block(
            vec![Statement::Assign(place, Rvalue::Use(Operand::Constant(cbits(1, 0))))],
            Terminator::Return,
        )],
        2,
    );
    let mut ctx = ctx_with(types, Vec::new(), Vec::new());
    let pass = mir_transform::remove_zsts::RemoveZsts;
    pass.run_pass(&mut ctx, &mut body);
    assert_eq!(body.basic_blocks[0].statements[0], Statement::Nop);
}

#[test]
fn zst_assignment_through_union_is_preserved() {
    // Type 0: a union; type 1: a zero-sized field type.
    let types = vec![
        ty(TyShape::Adt, true, Some(false), false),
        ty(TyShape::Adt, false, Some(true), false),
    ];
    let place = Place {
        local: 1,
        projection: vec![ProjElem { kind: ProjKind::Field(0), ty: 1 }],
    };
    let st = Statement::Assign(place, Rvalue::Use(Operand::Constant(cbits(1, 0))));
    let mut body = body_of(vec![block(vec![st.clone()], Terminator::Return)], 2);
    let mut ctx = ctx_with(types, Vec::new(), Vec::new());
    let pass = mir_transform::remove_zsts::RemoveZsts;
    pass.run_pass(&mut ctx, &mut body);
    assert_eq!(body.basic_blocks[0].statements[0], st);
}

#[test]
fn noop_landing_pad_is_classified_and_edges_fold_to_resume() {
    // bb0 calls with cleanup bb2; bb2 is a cleanup block with one real
    // statement jumping to bb3; bb3 holds only a storage marker and resumes.
    let mut body = body_of(
        vec![
            block(
                vec![],
                Terminator::Call {
                    func: Operand::Constant(cbits(0, 0)),
                    args: vec![],
                    callee: Some(0),
                    callee_abi: 0,
                    destination: Some((bare(0), 1)),
                    cleanup: Some(2),
                },
            ),
            block(vec![], Terminator::Return),
            cleanup_block(
                vec![Statement::Deinit(bare(1))],
                Terminator::Goto { target: 3 },
            ),
            cleanup_block(vec![Statement::StorageDead(1)], Terminator::Resume),
        ],
        2,
    );
    // The classification itself: storage marker plus resume is a noop pad.
    let nops = vec![false, false, false, false];
    assert!(mir_transform::remove_noop_landing_pads::RemoveNoopLandingPads::is_nop_landing_pad(
        &body.basic_blocks[3],
        &nops,
    ));
    assert!(!mir_transform::remove_noop_landing_pads::RemoveNoopLandingPads::is_nop_landing_pad(
        &body.basic_blocks[2],
        &nops,
    ));
    let mut ctx = plain_ctx();
    let pass = mir_transform::remove_noop_landing_pads::RemoveNoopLandingPads;
    pass.run_pass(&mut ctx, &mut body);
    // A canonical resume block was appended and the cleanup chain's jump to
    // the noop pad was folded into it.
    assert_eq!(body.basic_blocks.len(), 5);
    assert_eq!(body.basic_blocks[2].terminator, Terminator::Goto { target: 4 });
    assert!(body.basic_blocks[4].is_cleanup);
    assert_eq!(body.basic_blocks[4].terminator, Terminator::Resume);
    assert!(body.basic_blocks[4].statements.is_empty());
}

#[test]
fn abort_unwinding_redirects_escaping_unwind_to_abort_block() {
    // The body itself cannot unwind; the callee can.
    let fns = vec![
        FnInfo { abi: 0, can_unwind: false, derive_impl: None },
        FnInfo { abi: 0, can_unwind: true, derive_impl: None },
    ];
    let mut body = body_of(
        vec![
            block(
                vec![],
                Terminator::Call {
                    func: Operand::Constant(cbits(0, 0)),
                    args: vec![],
                    callee: Some(1),
                    callee_abi: 0,
                    destination: Some((bare(0), 1)),
                    cleanup: None,
                },
            ),
            block(vec![], Terminator::Return),
        ],
        1,
    );
    let mut ctx = ctx_with(Vec::new(), fns, vec![false]);
    let pass = mir_transform::abort_unwinding_calls::AbortUnwindingCalls;
    pass.run_pass(&mut ctx, &mut body);
    assert_eq!(body.basic_blocks.len(), 3);
    match &body.basic_blocks[0].terminator {
        Terminator::Call { cleanup, .. } => assert_eq!(*cleanup, Some(2)),
        other => panic!("expected a call, got {:?}", other),
    }
    assert!(body.basic_blocks[2].is_cleanup);
    assert!(body.basic_blocks[2].statements.is_empty());
    assert_eq!(body.basic_blocks[2].terminator, Terminator::Abort);
}

#[test]
fn abort_unwinding_drops_dead_unwind_edges() {
    // The callee cannot unwind, so its landing pad is dead and removed.
    let fns = vec![
        FnInfo { abi: 0, can_unwind: true, derive_impl: None },
        FnInfo { abi: 0, can_unwind: false, derive_impl: None },
    ];
    let mut body = body_of(
        vec![
            block(
                vec![],
                Terminator::Call {
                    func: Operand::Constant(cbits(0, 0)),
                    args: vec![],
                    callee: Some(1),
                    callee_abi: 0,
                    destination: Some((bare(0), 1)),
                    cleanup: Some(2),
                },
            ),
            block(vec![], Terminator::Return),
            cleanup_block(vec![], Terminator::Resume),
        ],
        1,
    );
    let mut ctx = ctx_with(Vec::new(), fns, vec![true]);
    let pass = mir_transform::abort_unwinding_calls::AbortUnwindingCalls;
    pass.run_pass(&mut ctx, &mut body);
    assert_eq!(body.basic_blocks.len(), 2);
    match &body.basic_blocks[0].terminator {
        Terminator::Call { cleanup, .. } => assert_eq!(*cleanup, None),
        other => panic!("expected a call, got {:?}", other),
    }
}

#[test]
fn nrvo_renames_the_single_returned_local() {
    let mut body = body_of(
        vec![block(
            vec![
                Statement::StorageLive(1),
                assign_const(1, 0, 7),
                Statement::Assign(bare(0), Rvalue::Use(Operand::Move(bare(1)))),
            ],
            Terminator::Return,
        )],
        2,
    );
    body.local_decls[1] = LocalDecl { ty: 0, mutable: false };
    let mut ctx = plain_ctx();
    let pass = mir_transform::nrvo::RenameReturnPlace;
    pass.run_pass(&mut ctx, &mut body);
    assert_eq!(body.basic_blocks[0].statements, vec![assign_const(0, 0, 7)]);
    assert!(body.local_decls[0].mutable);
}

#[test]
fn nrvo_leaves_disagreeing_paths_alone() {
    let original = body_of(
        vec![
            block(
                vec![Statement::Assign(bare(0), Rvalue::Use(Operand::Move(bare(1))))],
                Terminator::Return,
            ),
            block(
                vec![Statement::Assign(bare(0), Rvalue::Use(Operand::Move(bare(2))))],
                Terminator::Return,
            ),
        ],
        3,
    );
    let mut body = original.clone();
    let mut ctx = plain_ctx();
    let pass = mir_transform::nrvo::RenameReturnPlace;
    pass.run_pass(&mut ctx, &mut body);
    assert_eq!(body, original);
}

#[test]
fn cfg_simplification_twice_equals_once() {
    let make = || {
        body_of(
            vec![
                block(vec![], Terminator::Goto { target: 1 }),
                block(vec![assign_const(1, 0, 1)], Terminator::Goto { target: 2 }),
                block(vec![], Terminator::Return),
                block(vec![], Terminator::Return),
            ],
            2,
        )
    };
    let mut once = make();
    mir_transform::simplify::simplify_cfg(&mut once);
    let mut twice = make();
    mir_transform::simplify::simplify_cfg(&mut twice);
    mir_transform::simplify::simplify_cfg(&mut twice);
    assert_eq!(twice, once);
}

#[test]
fn dead_block_removal_twice_equals_once() {
    let make = || {
        body_of(
            vec![
                block(vec![], Terminator::Goto { target: 2 }),
                block(vec![], Terminator::Return),
                block(vec![], Terminator::Return),
            ],
            1,
        )
    };
    let mut once = make();
    mir_transform::simplify::remove_dead_blocks(&mut once);
    assert_eq!(once.basic_blocks.len(), 2);
    let mut twice = once.clone();
    mir_transform::simplify::remove_dead_blocks(&mut twice);
    assert_eq!(twice, once);
}

#[test]
fn storage_markers_and_nops_are_dropped() {
    let mut body = body_of(
        vec![block(
            vec![
                Statement::StorageLive(1),
                assign_const(1, 0, 2),
                Statement::StorageDead(1),
                Statement::Nop,
            ],
            Terminator::Return,
        )],
        2,
    );
    let mut ctx = plain_ctx();
    let pass = mir_transform::remove_storage_markers::RemoveStorageMarkers;
    pass.run_pass(&mut ctx, &mut body);
    assert_eq!(body.basic_blocks[0].statements, vec![assign_const(1, 0, 2)]);
}

#[test]
fn storage_markers_stay_when_codegen_wants_them() {
    let st = vec![Statement::StorageLive(1), Statement::StorageDead(1)];
    let mut body = body_of(vec![block(st.clone(), Terminator::Return)], 2);
    let mut ctx = plain_ctx();
    ctx.sess.emit_lifetime_markers = true;
    let pass = mir_transform::remove_storage_markers::RemoveStorageMarkers;
    pass.run_pass(&mut ctx, &mut body);
    assert_eq!(body.basic_blocks[0].statements, st);
}

#[test]
fn constant_switch_condition_becomes_goto() {
    let mut body = body_of(
        vec![
            block(
                vec![],
                switch(Operand::Constant(cbits(0, 1)), 0, vec![0], vec![1, 2]),
            ),
            block(vec![], Terminator::Return),
            block(vec![], Terminator::Return),
        ],
        1,
    );
    let mut ctx = plain_ctx();
    let pass = mir_transform::simplify_branches::SimplifyConstCondition::new();
    pass.run_pass(&mut ctx, &mut body);
    // The constant 1 matches no value arm and falls to the default.
    assert_eq!(body.basic_blocks[0].terminator, Terminator::Goto { target: 2 });
}

#[test]
fn satisfied_constant_assertion_becomes_goto() {
    let mut body = body_of(
        vec![
            block(
                vec![],
                Terminator::Assert {
                    cond: Operand::Constant(cbits(0, 1)),
                    expected: true,
                    target: 1,
                    cleanup: None,
                },
            ),
            block(vec![], Terminator::Return),
        ],
        1,
    );
    let mut ctx = plain_ctx();
    let pass = mir_transform::simplify_branches::SimplifyConstCondition::new();
    pass.run_pass(&mut ctx, &mut body);
    assert_eq!(body.basic_blocks[0].terminator, Terminator::Goto { target: 1 });
}

#[test]
fn failing_constant_assertion_is_kept() {
    let t = Terminator::Assert {
        cond: Operand::Constant(cbits(0, 0)),
        expected: true,
        target: 1,
        cleanup: None,
    };
    let mut body = body_of(
        vec![block(vec![], t.clone()), block(vec![], Terminator::Return)],
        1,
    );
    let mut ctx = plain_ctx();
    let pass = mir_transform::simplify_branches::SimplifyConstCondition::new();
    pass.run_pass(&mut ctx, &mut body);
    assert_eq!(body.basic_blocks[0].terminator, t);
}

#[test]
fn goto_to_bare_return_block_becomes_return() {
    let mut body = body_of(
        vec![
            block(vec![assign_const(0, 0, 1)], Terminator::Goto { target: 1 }),
            block(vec![], Terminator::Return),
        ],
        1,
    );
    let mut ctx = plain_ctx();
    let pass = mir_transform::multiple_return_terminators::MultipleReturnTerminators;
    pass.run_pass(&mut ctx, &mut body);
    assert_eq!(body.basic_blocks.len(), 1);
    assert_eq!(body.basic_blocks[0].terminator, Terminator::Return);
}

#[test]
fn drop_of_type_without_destructor_becomes_goto() {
    let types = vec![ty(TyShape::Adt, false, Some(false), false)];
    let mut body = body_of(
        vec![
            block(
                vec![],
                Terminator::Drop { place: bare(1), target: 1, unwind: None },
            ),
            block(vec![], Terminator::Return),
        ],
        2,
    );
    let mut ctx = ctx_with(types, Vec::new(), Vec::new());
    let pass = mir_transform::remove_unneeded_drops::RemoveUnneededDrops;
    pass.run_pass(&mut ctx, &mut body);
    // The drop became a goto and the cleanup merged the blocks.
    assert_eq!(body.basic_blocks.len(), 1);
    assert_eq!(body.basic_blocks[0].terminator, Terminator::Return);
}

#[test]
fn drop_of_type_with_destructor_is_kept() {
    let types = vec![ty(TyShape::Adt, false, Some(false), true)];
    let t = Terminator::Drop { place: bare(1), target: 1, unwind: None };
    let mut body = body_of(
        vec![block(vec![], t.clone()), block(vec![], Terminator::Return)],
        2,
    );
    let mut ctx = ctx_with(types, Vec::new(), Vec::new());
    let pass = mir_transform::remove_unneeded_drops::RemoveUnneededDrops;
    pass.run_pass(&mut ctx, &mut body);
    assert_eq!(body.basic_blocks[0].terminator, t);
}

#[test]
fn reveal_all_normalizes_declared_types() {
    let mut types = vec![ty(TyShape::Opaque, false, None, false)];
    types[0].normalized = Some(3);
    let mut body = body_of(vec![block(vec![], Terminator::Return)], 1);
    let mut ctx = ctx_with(types, Vec::new(), Vec::new());
    let pass = mir_transform::reveal_all::RevealAll;
    pass.run_pass(&mut ctx, &mut body);
    assert_eq!(body.local_decls[0].ty, 3);
}

#[test]
fn dead_locals_are_dropped_and_the_rest_renumbered() {
    let mut body = body_of(
        vec![block(vec![assign_const(2, 0, 5)], Terminator::Return)],
        3,
    );
    mir_transform::locals::simplify_locals(&mut body);
    assert_eq!(body.local_decls.len(), 2);
    assert_eq!(body.basic_blocks[0].statements, vec![assign_const(1, 0, 5)]);
}

#[test]
fn const_debuginfo_folds_single_assignment_into_entry() {
    let mut body = body_of(
        vec![block(vec![assign_const(1, 0, 9)], Terminator::Return)],
        2,
    );
    body.var_debug_info.push(VarDebugInfo {
        name: 0,
        value: mir_transform::ir::DebugContents::Place(bare(1)),
    });
    let mut ctx = plain_ctx();
    let pass = mir_transform::const_debuginfo::ConstDebugInfo;
    pass.run_pass(&mut ctx, &mut body);
    assert_eq!(
        body.var_debug_info[0].value,
        mir_transform::ir::DebugContents::Const(cbits(0, 9)),
    );
}

#[test]
fn const_debuginfo_skips_reassigned_locals() {
    let entry = VarDebugInfo {
        name: 0,
        value: mir_transform::ir::DebugContents::Place(bare(1)),
    };
    let mut body = body_of(
        vec![block(
            vec![assign_const(1, 0, 9), assign_const(1, 0, 10)],
            Terminator::Return,
        )],
        2,
    );
    body.var_debug_info.push(entry.clone());
    let mut ctx = plain_ctx();
    let pass = mir_transform::const_debuginfo::ConstDebugInfo;
    pass.run_pass(&mut ctx, &mut body);
    assert_eq!(body.var_debug_info[0], entry);
}

#[test]
fn packed_reference_is_reported_at_the_borrow() {
    // Type 0: a packed aggregate; type 1: its field type, wanting more
    // alignment than the packing gives.
    let mut types = vec![
        ty(TyShape::Adt, false, Some(false), false),
        ty(TyShape::Adt, false, Some(false), false),
    ];
    types[0].packed = Some(1);
    types[1].align = 2;
    let place = Place {
        local: 1,
        projection: vec![ProjElem { kind: ProjKind::Field(0), ty: 1 }],
    };
    let body = body_of(
        vec![block(
            vec![Statement::Assign(bare(2), Rvalue::Ref(false, place))],
            Terminator::Return,
        )],
        3,
    );
    let mut ctx = ctx_with(types, vec![FnInfo { abi: 0, can_unwind: true, derive_impl: None }], Vec::new());
    let lint = mir_transform::check_packed_ref::CheckPackedRef;
    lint.run_lint(&mut ctx, &body);
    assert_eq!(ctx.diagnostics, vec![Diagnostic::UnalignedReference { block: 0, statement: 0 }]);
}

#[test]
fn packed_reference_in_derived_code_is_reported_once_per_impl() {
    let mut types = vec![
        ty(TyShape::Adt, false, Some(false), false),
        ty(TyShape::Adt, false, Some(false), false),
    ];
    types[0].packed = Some(1);
    types[1].align = 2;
    let place = Place {
        local: 1,
        projection: vec![ProjElem { kind: ProjKind::Field(0), ty: 1 }],
    };
    let borrow = Statement::Assign(bare(2), Rvalue::Ref(false, place));
    let body = body_of(
        vec![block(vec![borrow.clone(), borrow], Terminator::Return)],
        3,
    );
    let mut ctx = ctx_with(
        types,
        vec![FnInfo { abi: 0, can_unwind: true, derive_impl: Some(9) }],
        Vec::new(),
    );
    let lint = mir_transform::check_packed_ref::CheckPackedRef;
    lint.run_lint(&mut ctx, &body);
    assert_eq!(ctx.diagnostics, vec![Diagnostic::UnsafeDeriveOnReprPacked { derive_impl: 9 }]);
}

#[test]
fn pass_manager_advances_the_phase() {
    let mut body = body_of(vec![block(vec![], Terminator::Return)], 1);
    let mut ctx = plain_ctx();
    let passes = vec![
        mir_transform::pass_manager::PipelinePass::RemoveStorageMarkers(
            mir_transform::remove_storage_markers::RemoveStorageMarkers,
        ),
        mir_transform::pass_manager::PipelinePass::PhaseMarker(Phase::Optimized),
    ];
    let r = mir_transform::pass_manager::run_passes(&mut ctx, &mut body, &passes);
    assert!(r.is_ok());
    assert_eq!(body.phase, Phase::Optimized);
    // The enabled pass was dumped before and after.
    assert_eq!(ctx.dumps.len(), 4);
    assert!(!ctx.dumps[0].is_after);
    assert!(ctx.dumps[1].is_after);
}

#[test]
fn pass_manager_rejects_phase_regression() {
    let mut body = body_of(vec![block(vec![], Terminator::Return)], 1);
    body.phase = Phase::Optimized;
    let mut ctx = plain_ctx();
    let passes = vec![mir_transform::pass_manager::PipelinePass::PhaseMarker(Phase::ConstsPromoted)];
    let r = mir_transform::pass_manager::run_passes(&mut ctx, &mut body, &passes);
    assert_eq!(
        r,
        Err(mir_transform::pass_manager::FatalError::PhaseTransition {
            from: Phase::Optimized,
            to: Phase::ConstsPromoted,
        }),
    );
}

#[test]
fn pass_manager_override_forces_a_pass_off() {
    let st = vec![Statement::StorageLive(1), Statement::StorageDead(1)];
    let mut body = body_of(vec![block(st.clone(), Terminator::Return)], 2);
    let mut ctx = plain_ctx();
    ctx.overridden_passes.push((PassName::RemoveStorageMarkers, false));
    let passes = vec![mir_transform::pass_manager::PipelinePass::RemoveStorageMarkers(
        mir_transform::remove_storage_markers::RemoveStorageMarkers,
    )];
    let r = mir_transform::pass_manager::run_passes(&mut ctx, &mut body, &passes);
    assert!(r.is_ok());
    assert_eq!(body.basic_blocks[0].statements, st);
}

#[test]
fn every_pass_keeps_the_body_structurally_valid() {
    // A body exercising calls, drops, switches and cleanup blocks.
    let fns = vec![
        FnInfo { abi: 0, can_unwind: false, derive_impl: None },
        FnInfo { abi: 0, can_unwind: true, derive_impl: None },
    ];
    let types = vec![ty(TyShape::Adt, false, Some(false), true)];
    let make = || {
        body_of(
            vec![
                block(
                    vec![assign_const(1, 0, 1)],
                    switch(Operand::Copy(bare(1)), 0, vec![0], vec![1, 2]),
                ),
                block(
                    vec![],
                    Terminator::Call {
                        func: Operand::Constant(cbits(0, 0)),
                        args: vec![Operand::Copy(bare(1))],
                        callee: Some(1),
                        callee_abi: 0,
                        destination: Some((bare(0), 3)),
                        cleanup: Some(4),
                    },
                ),
                block(
                    vec![],
                    Terminator::Drop { place: bare(1), target: 3, unwind: Some(4) },
                ),
                block(vec![], Terminator::Return),
                cleanup_block(vec![Statement::StorageDead(1)], Terminator::Resume),
            ],
            2,
        )
    };
    let mut ctx = ctx_with(types, fns, vec![true]);
    let passes = vec![
        mir_transform::pass_manager::PipelinePass::CheckPackedRef(
            mir_transform::pass_manager::Lint(mir_transform::check_packed_ref::CheckPackedRef),
        ),
        mir_transform::pass_manager::PipelinePass::RemoveNoopLandingPads(
            mir_transform::remove_noop_landing_pads::RemoveNoopLandingPads,
        ),
        mir_transform::pass_manager::PipelinePass::AbortUnwindingCalls(
            mir_transform::abort_unwinding_calls::AbortUnwindingCalls,
        ),
        mir_transform::pass_manager::PipelinePass::RemoveUnneededDrops(
            mir_transform::remove_unneeded_drops::RemoveUnneededDrops,
        ),
        mir_transform::pass_manager::PipelinePass::SimplifyConstCondition(
            mir_transform::pass_manager::WithMinOptLevel(
                1,
                mir_transform::simplify_branches::SimplifyConstCondition::new(),
            ),
        ),
        mir_transform::pass_manager::PipelinePass::UnreachablePropagation(
            mir_transform::unreachable_prop::UnreachablePropagation,
        ),
        mir_transform::pass_manager::PipelinePass::RenameReturnPlace(
            mir_transform::nrvo::RenameReturnPlace,
        ),
        mir_transform::pass_manager::PipelinePass::RemoveStorageMarkers(
            mir_transform::remove_storage_markers::RemoveStorageMarkers,
        ),
        mir_transform::pass_manager::PipelinePass::PhaseMarker(Phase::Optimized),
    ];
    let mut body = make();
    let r = mir_transform::pass_manager::run_passes(&mut ctx, &mut body, &passes);
    assert!(r.is_ok());
    assert!(mir_transform::pass_manager::validate_body(&body));
    assert_eq!(body.phase, Phase::Optimized);
}

#[test]
fn exhausted_fuel_vetoes_every_rewrite() {
    let types = vec![ty(TyShape::Adt, false, Some(false), false)];
    let t = Terminator::Drop { place: bare(1), target: 1, unwind: None };
    let original = body_of(
        vec![block(vec![], t.clone()), block(vec![], Terminator::Return)],
        2,
    );
    let mut body = original.clone();
    let mut ctx = ctx_with(types, Vec::new(), Vec::new());
    ctx.fuel = Some(0);
    let pass = mir_transform::remove_unneeded_drops::RemoveUnneededDrops;
    pass.run_pass(&mut ctx, &mut body);
    assert_eq!(body, original);
}

#[test]
fn fuel_grants_exactly_as_many_rewrites_as_it_holds() {
    let types = vec![ty(TyShape::Adt, false, Some(true), false)];
    let place = || Place {
        local: 1,
        projection: vec![ProjElem { kind: ProjKind::Field(0), ty: 0 }],
    };
    let st = || Statement::Assign(place(), Rvalue::Use(Operand::Constant(cbits(0, 0))));
    let mut body = body_of(vec![block(vec![st(), st()], Terminator::Return)], 2);
    let mut ctx = ctx_with(types, Vec::new(), Vec::new());
    ctx.fuel = Some(1);
    let pass = mir_transform::remove_zsts::RemoveZsts;
    pass.run_pass(&mut ctx, &mut body);
    assert_eq!(body.basic_blocks[0].statements[0], Statement::Nop);
    assert_eq!(body.basic_blocks[0].statements[1], st());
    assert_eq!(ctx.fuel, Some(0));
}

#[test]
fn existing_resume_block_is_reused() {
    let mut body = body_of(
        vec![
            block(
                vec![],
                Terminator::Drop { place: bare(1), target: 1, unwind: Some(2) },
            ),
            block(vec![], Terminator::Return),
            cleanup_block(vec![], Terminator::Resume),
        ],
        2,
    );
    let mut ctx = plain_ctx();
    let pass = mir_transform::remove_noop_landing_pads::RemoveNoopLandingPads;
    pass.run_pass(&mut ctx, &mut body);
    // No new block was appended: block 2 already is the canonical resume
    // block, and the drop's unwind edge into it is dead and cleared.
    assert_eq!(body.basic_blocks.len(), 3);
    assert_eq!(
        body.basic_blocks[0].terminator,
        Terminator::Drop { place: bare(1), target: 1, unwind: None },
    );
}

#[test]
fn nrvo_walks_back_through_unique_predecessors() {
    let mut body = body_of(
        vec![
            block(
                vec![
                    assign_const(1, 0, 4),
                    Statement::Assign(bare(0), Rvalue::Use(Operand::Move(bare(1)))),
                ],
                Terminator::Goto { target: 1 },
            ),
            block(vec![], Terminator::Return),
        ],
        2,
    );
    let mut ctx = plain_ctx();
    let pass = mir_transform::nrvo::RenameReturnPlace;
    pass.run_pass(&mut ctx, &mut body);
    assert_eq!(body.basic_blocks[0].statements, vec![assign_const(0, 0, 4)]);
}

#[test]
fn const_goto_needs_a_marker_only_switch_block() {
    // The switch block holds a real assignment, so nothing may be hoisted
    // and the pattern does not apply.
    let original = body_of(
        vec![
            block(vec![assign_const(1, 0, 3)], Terminator::Goto { target: 1 }),
            block(
                vec![assign_const(1, 0, 4)],
                switch(Operand::Copy(bare(1)), 0, vec![3], vec![2, 3]),
            ),
            block(vec![], Terminator::Return),
            block(vec![], Terminator::Unreachable),
        ],
        2,
    );
    let mut body = original.clone();
    let mut ctx = plain_ctx();
    let pass = mir_transform::const_goto::ConstGoto;
    pass.run_pass(&mut ctx, &mut body);
    assert_eq!(body, original);
}

#[test]
fn postorder_lists_successors_before_their_predecessors() {
    let body = body_of(
        vec![
            block(vec![], Terminator::Goto { target: 1 }),
            block(vec![], Terminator::Goto { target: 2 }),
            block(vec![], Terminator::Return),
        ],
        1,
    );
    let order = mir_transform::traversal::postorder(&body);
    assert_eq!(order, vec![2, 1, 0]);
}

#[test]
fn nrvo_vetoed_by_exhausted_fuel_changes_nothing() {
    let original = body_of(
        vec![block(
            vec![
                assign_const(1, 0, 7),
                Statement::Assign(bare(0), Rvalue::Use(Operand::Move(bare(1)))),
            ],
            Terminator::Return,
        )],
        2,
    );
    let mut body = original.clone();
    let mut ctx = plain_ctx();
    ctx.fuel = Some(0);
    let pass = mir_transform::nrvo::RenameReturnPlace;
    pass.run_pass(&mut ctx, &mut body);
    assert_eq!(body, original);
}

#[test]
fn nrvo_with_remaining_fuel_still_renames() {
    let mut body = body_of(
        vec![block(
            vec![
                assign_const(1, 0, 7),
                Statement::Assign(bare(0), Rvalue::Use(Operand::Move(bare(1)))),
            ],
            Terminator::Return,
        )],
        2,
    );
    let mut ctx = plain_ctx();
    ctx.fuel = Some(1);
    let pass = mir_transform::nrvo::RenameReturnPlace;
    pass.run_pass(&mut ctx, &mut body);
    assert_eq!(body.basic_blocks[0].statements, vec![assign_const(0, 0, 7)]);
    assert_eq!(ctx.fuel, Some(0));
}

#[test]
fn pass_manager_override_forces_a_pass_on() {
    // At optimization level zero the pass would not run on its own.
    let mut body = body_of(
        vec![
            block(vec![assign_const(1, 0, 3)], Terminator::Goto { target: 1 }),
            block(
                vec![],
                switch(Operand::Copy(bare(1)), 0, vec![3], vec![2, 3]),
            ),
            block(vec![], Terminator::Return),
            block(vec![], Terminator::Unreachable),
        ],
        2,
    );
    let mut ctx = plain_ctx();
    ctx.sess.mir_opt_level = 0;
    ctx.overridden_passes.push((PassName::ConstGoto, false));
    ctx.overridden_passes.push((PassName::ConstGoto, true));
    let passes = vec![mir_transform::pass_manager::PipelinePass::ConstGoto(
        mir_transform::const_goto::ConstGoto,
    )];
    let r = mir_transform::pass_manager::run_passes(&mut ctx, &mut body, &passes);
    assert!(r.is_ok());
    // The later override entry won and the pass ran.
    assert_eq!(body.basic_blocks.len(), 2);
    assert_eq!(body.basic_blocks[0].terminator, Terminator::Goto { target: 1 });
}

#[test]
fn pass_manager_dump_trace_names_each_enabled_pass_in_order() {
    let mut body = body_of(vec![block(vec![], Terminator::Return)], 1);
    let mut ctx = plain_ctx();
    let passes = vec![
        mir_transform::pass_manager::PipelinePass::CheckPackedRef(
            mir_transform::pass_manager::Lint(mir_transform::check_packed_ref::CheckPackedRef),
        ),
        mir_transform::pass_manager::PipelinePass::RemoveStorageMarkers(
            mir_transform::remove_storage_markers::RemoveStorageMarkers,
        ),
        mir_transform::pass_manager::PipelinePass::RemoveZsts(
            mir_transform::remove_zsts::RemoveZsts,
        ),
    ];
    let r = mir_transform::pass_manager::run_passes(&mut ctx, &mut body, &passes);
    assert!(r.is_ok());
    // The lint is never dumped; the two passes each dump before and after,
    // with the counter advancing per dumped pass.
    assert_eq!(ctx.dumps.len(), 4);
    assert_eq!(ctx.dumps[0].pass, PassName::RemoveStorageMarkers);
    assert!(!ctx.dumps[0].is_after);
    assert_eq!(ctx.dumps[0].cnt, 0);
    assert_eq!(ctx.dumps[1].pass, PassName::RemoveStorageMarkers);
    assert!(ctx.dumps[1].is_after);
    assert_eq!(ctx.dumps[2].pass, PassName::RemoveZsts);
    assert_eq!(ctx.dumps[2].cnt, 1);
    assert_eq!(ctx.dumps[3].pass, PassName::RemoveZsts);
    assert!(ctx.dumps[3].is_after);
}
