use osprey_codegen::ast::Position;
use osprey_codegen::builder::{Codegen, CodegenOptions};
use osprey_codegen::debug_info::DebugSource;
use osprey_codegen::effects::{emit_drive_fn, DriveArm, OpSig};
use osprey_codegen::LType;

fn arm(op_id: usize, params: Vec<LType>, arm_fn: &str) -> DriveArm {
    let n = params.len();
    DriveArm {
        op_id,
        operation: format!("op{op_id}"),
        sig: OpSig {
            params,
            ret: LType::I64,
            ret_result_inner: None,
            param_erased: vec![false; n],
            ret_erased: false,
        },
        arm_fn: arm_fn.to_string(),
    }
}

fn function_text(ir: &str, name: &str) -> String {
    let start = ir.find(&format!("define i64 @{name}(")).expect("the function");
    let end = ir[start..].find("\n}").expect("its end") + start;
    ir[start..end + 2].to_string()
}

#[test]
fn the_dispatcher_tests_each_operation_and_unpacks_its_arguments() {
    let mut cg = Codegen::new();
    cg.begin_function("main", None);
    let before = cg.emit_reg("add i64 1, 2");
    assert_eq!(before, "%r0");
    let arms = vec![arm(0, vec![LType::I64, LType::Str], "arm.get"), arm(7, vec![], "arm.stop")];
    emit_drive_fn(&mut cg, "drive.0", &arms);
    // the suspended function resumes where it stopped
    assert_eq!(cg.fresh_reg(), "%r1");
    assert_eq!(cg.cur_block(), "entry");
    cg.emit("ret i32 0");
    cg.finish_function("i32", "main", &[]);
    let ir = cg.render();
    let expected = [
        "define i64 @drive.0(i8* %__env, i8* %__coro) #0 {",
        "entry:",
        "  %r0 = call i64 @__osprey_coro_done(i8* %__coro)",
        "  %r1 = icmp ne i64 %r0, 0",
        "  br i1 %r1, label %L0, label %L1",
        "L0:",
        "  %r2 = call i64 @__osprey_coro_result(i8* %__coro)",
        "  ret i64 %r2",
        "L1:",
        "  %r3 = call i64 @__osprey_coro_op(i8* %__coro)",
        "  br label %L3",
        "L3:",
        "  %r4 = icmp eq i64 %r3, 0",
        "  br i1 %r4, label %L5, label %L4",
        "L4:",
        "  %r5 = icmp eq i64 %r3, 7",
        "  br i1 %r5, label %L6, label %L2",
        "L5:",
        "  %r6 = call i64 @__osprey_coro_arg(i8* %__coro, i64 0)",
        "  %r7 = call i64 @__osprey_coro_arg(i8* %__coro, i64 1)",
        "  %r8 = inttoptr i64 %r7 to i8*",
        "  %r9 = call i64 @arm.get(i8* %__env, i8* %__coro, i64 %r6, i8* %r8)",
        "  %r10 = call i64 @__osprey_coro_done(i8* %__coro)",
        "  %r11 = icmp ne i64 %r10, 0",
        "  br i1 %r11, label %L8, label %L7",
        "L7:",
        "  call void @__osprey_coro_abort(i8* %__coro)",
        "  br label %L8",
        "L8:",
        "  ret i64 %r9",
        "L6:",
        "  %r12 = call i64 @arm.stop(i8* %__env, i8* %__coro)",
        "  %r13 = call i64 @__osprey_coro_done(i8* %__coro)",
        "  %r14 = icmp ne i64 %r13, 0",
        "  br i1 %r14, label %L10, label %L9",
        "L9:",
        "  call void @__osprey_coro_abort(i8* %__coro)",
        "  br label %L10",
        "L10:",
        "  ret i64 %r12",
        "L2:",
        "  call void @__osprey_coro_abort(i8* %__coro)",
        "  ret i64 0",
        "}",
    ]
    .join("\n");
    assert_eq!(function_text(&ir, "drive.0"), expected);
    for decl in [
        "declare i64 @__osprey_coro_done(i8*)",
        "declare i64 @__osprey_coro_result(i8*)",
        "declare i64 @__osprey_coro_op(i8*)",
        "declare i64 @__osprey_coro_arg(i8*, i64)",
        "declare void @__osprey_coro_abort(i8*)",
    ] {
        assert_eq!(ir.matches(decl).count(), 1, "{decl}");
    }
    // the nested function is appended before the one it interrupted
    assert!(ir.find("define i64 @drive.0").unwrap() < ir.find("define i32 @main").unwrap());
}

#[test]
fn a_dispatcher_without_arms_aborts_every_operation() {
    let mut cg = Codegen::new();
    emit_drive_fn(&mut cg, "drive.none", &[]);
    let ir = cg.render();
    let text = function_text(&ir, "drive.none");
    assert!(text.contains("  %r3 = call i64 @__osprey_coro_op(i8* %__coro)\n  br label %L2\nL2:\n  call void @__osprey_coro_abort(i8* %__coro)\n  ret i64 0\n}"));
    assert!(!ir.contains("__osprey_coro_arg"));
}

#[test]
fn a_nested_function_leaves_the_debug_context_of_the_outer_one() {
    let mut cg = Codegen::with_options(
        CodegenOptions {
            debug_source: Some(DebugSource {
                path: "/p/a.osp".to_string(),
                filename: "a.osp".to_string(),
                directory: "/p".to_string(),
            }),
            coverage: false,
        },
        false,
    );
    cg.begin_function("main", Some(Position { line: 1, column: 0 }));
    cg.emit("call void @before()");
    emit_drive_fn(&mut cg, "drive.1", &[arm(3, vec![], "arm.x")]);
    cg.emit("ret i32 0");
    cg.finish_function("i32", "main", &[]);
    let ir = cg.render();
    // no location inside the dispatcher, and the outer function keeps its own
    assert!(function_text(&ir, "drive.1").find("!dbg").is_none());
    assert!(ir.contains("  call void @before(), !dbg !15\n"));
    assert!(ir.contains("  ret i32 0, !dbg !16\n"));
    assert!(ir.contains("define i32 @main() #0 !dbg !14 {"));
    assert!(ir.contains("!13 = !{}"));
}
