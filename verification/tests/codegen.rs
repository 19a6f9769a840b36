use osprey_codegen::ast::{Expr, Position, Program, Stmt};
use osprey_codegen::builder::{Codegen, CodegenOptions};
use osprey_codegen::conv::{as_double, as_i1, as_i64, box_to_i64, from_word, unbox_from_i64};
use osprey_codegen::debug_info::DebugSource;
use osprey_codegen::expr::gen_comparison;
use osprey_codegen::{CodegenError, LType, Value};

fn coverage_codegen() -> Codegen {
    Codegen::with_options(
        CodegenOptions {
            coverage: true,
            ..CodegenOptions::default()
        },
        false,
    )
}

fn debug_codegen() -> Codegen {
    Codegen::with_options(
        CodegenOptions {
            debug_source: Some(DebugSource {
                path: "/src/demo.osp".to_string(),
                filename: "demo.osp".to_string(),
                directory: "/src".to_string(),
            }),
            coverage: false,
        },
        false,
    )
}

fn count(hay: &str, needle: &str) -> usize {
    hay.matches(needle).count()
}

#[test]
fn cov_hit_declares_each_counter_once_and_bumps_in_place() {
    let mut cg = coverage_codegen();
    cg.begin_function("f", None);
    cg.cov_hit(Some(Position { line: 4, column: 0 }));
    cg.cov_hit(Some(Position { line: 4, column: 2 }));
    cg.cov_hit(None); // positionless statements are not coverable
    cg.emit("ret i64 0");
    cg.finish_function("i64", "f", &[]);
    cg.cov_emit_boot(); // extern must land even without a real main here
    let init = cg.cov_render_init().expect("coverage active");
    assert!(init.contains("call void @osp_cov_register_line(i64 4, i64* @__osp_cov_hits.4)"));
    let module = cg.render();
    assert_eq!(
        module
            .matches("@__osp_cov_hits.4 = internal global i64 0")
            .count(),
        1
    );
    assert_eq!(module.matches("store i64").count(), 2);
}

#[test]
fn coverage_inactive_emits_nothing() {
    let mut cg = Codegen::new();
    cg.begin_function("f", None);
    cg.cov_hit(Some(Position { line: 9, column: 0 }));
    cg.cov_emit_boot();
    cg.emit("ret i64 0");
    cg.finish_function("i64", "f", &[]);
    assert!(cg.cov_render_init().is_none());
    assert!(!cg.render().contains("__osp_cov"));
}

#[test]
fn codegen_constructors_are_callable_directly() {
    let _a = Codegen::new();
    let _b = Codegen::default();
}

const EXPECTED_IR: [&str; 8] = [
    "zext i1 true to i64",
    "sext i32 -7 to i64",
    "fptosi double 2.5 to i64",
    "icmp ne i32 -1, 0",
    "trunc i64 1 to i1",
    "trunc i64 9 to i32",
    "bitcast i64 123 to double",
    "sitofp i64",
];

fn emitted_conversions(cg: &mut Codegen) {
    let _ = as_i64(cg, Value::new("true", LType::I1));
    let _ = as_i64(cg, Value::new("-7", LType::I32));
    let _ = as_i64(cg, Value::new("2.5", LType::Double));
    let _ = as_i1(cg, Value::new("-1", LType::I32));
    let _ = unbox_from_i64(cg, "1", LType::I1);
    let _ = unbox_from_i64(cg, "9", LType::I32);
    let _ = unbox_from_i64(cg, "123", LType::Double);
    let _ = as_double(cg, Value::new("false", LType::I1));
}

#[test]
fn numeric_coercions_emit_width_and_representation_preserving_ir() {
    let mut cg = Codegen::new();
    cg.begin_function("coercions", None);
    emitted_conversions(&mut cg);
    cg.emit("ret i64 0");
    cg.finish_function("i64", "coercions", &[]);
    let ir = cg.render();
    for instruction in EXPECTED_IR {
        assert!(ir.contains(instruction), "missing `{instruction}`:\n{ir}");
    }
}

#[test]
fn invalid_numeric_coercions_return_precise_diagnostics() {
    let mut cg = Codegen::new();
    let integer = as_i64(&mut cg, Value::new("null", LType::Str));
    let boolean = as_i1(&mut cg, Value::new("0.0", LType::Double));
    let number = as_double(&mut cg, Value::new("0", LType::I32));
    assert_eq!(
        integer.unwrap_err(),
        CodegenError::invalid("expected an integer, found a string/handle")
    );
    assert_eq!(
        boolean.unwrap_err(),
        CodegenError::invalid("expected a bool")
    );
    assert_eq!(
        number.unwrap_err(),
        CodegenError::invalid("expected a number")
    );
}

#[test]
fn a_whole_module_renders_in_section_order() {
    let mut cg = Codegen::new();
    cg.begin_function("main", None);
    let s = cg.string_constant("hi\n");
    assert_eq!(s.operand, "%r0");
    assert_eq!(s.ty, LType::Str);
    let r = cg.call("i32", "puts", "i8*", &[s.operand.as_str()]);
    assert_eq!(r, "%r1");
    cg.emit("ret i32 0");
    cg.finish_function("i32", "main", &[]);
    let ir = cg.render();
    let expected = [
        "; Generated by osprey-rs (Rust LLVM-text backend)",
        "",
        "declare i32 @puts(i8*)",
        "",
        "@.str.0 = private unnamed_addr constant [4 x i8] c\"hi\\0A\\00\"",
        "",
        "define i32 @main() #0 {",
        "entry:",
        "  %r0 = getelementptr [4 x i8], [4 x i8]* @.str.0, i64 0, i64 0",
        "  %r1 = call i32 @puts(i8* %r0)",
        "  ret i32 0",
        "}",
        "attributes #0 = { \"frame-pointer\"=\"all\" }",
        "",
    ]
    .join("\n");
    assert_eq!(ir, expected);
}

#[test]
fn parameters_are_typed_and_named_in_the_define_line() {
    let mut cg = Codegen::new();
    cg.begin_function("add", None);
    let sum = cg.emit_reg("add i64 %a, %b");
    assert_eq!(sum, "%r0");
    cg.emit("ret i64 %r0");
    cg.finish_function(
        "i64",
        "add",
        &[(LType::I64, "a".to_string()), (LType::Str, "b".to_string())],
    );
    let ir = cg.render();
    assert!(ir.contains("define i64 @add(i64 %a, i8* %b) #0 {\nentry:\n  %r0 = add i64 %a, %b\n  ret i64 %r0\n}"));
}

#[test]
fn counters_restart_with_each_function() {
    let mut cg = Codegen::new();
    cg.begin_function("f", None);
    assert_eq!(cg.fresh_reg(), "%r0");
    assert_eq!(cg.fresh_label(), "L0");
    assert_eq!(cg.fresh_label(), "L1");
    cg.finish_function("void", "f", &[]);
    cg.begin_function("g", None);
    assert_eq!(cg.fresh_reg(), "%r0");
    assert_eq!(cg.fresh_label(), "L0");
    assert_eq!(cg.cur_block(), "entry");
}

#[test]
fn externals_are_declared_once_and_sorted() {
    let mut cg = Codegen::new();
    cg.begin_function("f", None);
    cg.call_void("osp_b", "i64", &["1"]);
    cg.call_void("osp_b", "i64", &["2"]);
    let _ = cg.call("i64", "osp_a", " i8* , i64 ,", &["%p", "7"]);
    cg.finish_function("void", "f", &[]);
    let ir = cg.render();
    assert_eq!(count(&ir, "declare void @osp_b(i64)"), 1);
    assert!(ir.find("declare i64 @osp_a").unwrap() < ir.find("declare void @osp_b").unwrap());
    assert!(ir.contains("  call void @osp_b(i64 1)\n  call void @osp_b(i64 2)\n"));
    // surrounding white space and empty pieces of the parameter list are dropped
    assert!(ir.contains("  %r0 = call i64 @osp_a(i8* %p, i64 7)\n"));
}

#[test]
fn heap_allocation_takes_the_tagged_hook_only_with_a_layout_word() {
    let mut cg = Codegen::new();
    cg.begin_function("f", None);
    let raw = cg.heap_alloc_tagged("16", 0);
    let tagged = cg.heap_alloc_tagged("%r0", 515);
    assert_eq!(raw, "%r0");
    assert_eq!(tagged, "%r1");
    let obj = cg.malloc_struct("{ i64, i8* }", -3);
    assert_eq!(obj, "%r5");
    cg.finish_function("void", "f", &[]);
    let ir = cg.render();
    assert!(ir.contains("  %r0 = call i8* @osp_alloc(i64 16)\n"));
    assert!(ir.contains("  %r1 = call i8* @osp_alloc_tagged(i64 %r0, i64 515)\n"));
    assert!(ir.contains(
        "  %r2 = getelementptr { i64, i8* }, { i64, i8* }* null, i64 1\n  %r3 = ptrtoint { i64, i8* }* %r2 to i64\n  %r4 = call i8* @osp_alloc_tagged(i64 %r3, i64 -3)\n  %r5 = bitcast i8* %r4 to { i64, i8* }*\n"
    ));
    assert_eq!(count(&ir, "declare noalias i8* @osp_alloc(i64)"), 1);
    assert_eq!(count(&ir, "declare noalias i8* @osp_alloc_tagged(i64, i64)"), 1);
}

#[test]
fn arc_slots_are_hoisted_right_after_the_entry_label() {
    let mut cg = Codegen::new();
    cg.begin_function("f", None);
    cg.emit("call void @work()");
    assert_eq!(cg.hoist_arc_slot(), "%arc.s0");
    assert_eq!(cg.hoist_arc_slot(), "%arc.s1");
    cg.finish_function("void", "f", &[]);
    let ir = cg.render();
    assert!(ir.contains(
        "entry:\n  %arc.s1 = alloca i8*\n  store i8* null, i8** %arc.s1\n  %arc.s0 = alloca i8*\n  store i8* null, i8** %arc.s0\n  call void @work()"
    ));
}

#[test]
fn scopes_shadow_and_forget() {
    let mut cg = Codegen::new();
    cg.begin_function("f", None);
    cg.bind("x", Value::new("%a", LType::I64));
    cg.push_scope();
    cg.bind("x", Value::new("%b", LType::Str));
    assert_eq!(cg.lookup("x").map(|v| v.operand), Some("%b".to_string()));
    cg.pop_scope();
    assert_eq!(cg.lookup("x").map(|v| v.operand), Some("%a".to_string()));
    assert!(cg.lookup("y").is_none());
}

#[test]
fn debug_locations_tag_instructions_inside_a_function() {
    let mut cg = debug_codegen();
    cg.begin_function("main", Some(Position { line: 2, column: 4 }));
    let previous = cg.set_debug_position(Some(Position { line: 3, column: 0 }));
    assert_eq!(previous, Some(Position { line: 2, column: 4 }));
    let r = cg.emit_reg("add i64 1, 2");
    assert_eq!(r, "%r0");
    cg.restore_debug_position(previous);
    cg.emit("ret i64 %r0");
    cg.finish_function("i64", "main", &[]);
    let ir = cg.render();
    assert!(ir.starts_with(
        "; Generated by osprey-rs (Rust LLVM-text backend)\n\nsource_filename = \"/src/demo.osp\"\n\n"
    ));
    assert!(ir.contains("define i64 @main() #0 !dbg !14 {\nentry:\n  %r0 = add i64 1, 2, !dbg !15\n  ret i64 %r0, !dbg !16\n}"));
    assert!(ir.contains("!15 = !DILocation(line: 3, column: 1, scope: !14)"));
    assert!(ir.contains("!16 = !DILocation(line: 2, column: 5, scope: !14)"));
    assert!(ir.contains("!13 = !{}"));
    assert!(ir.contains("!llvm.dbg.cu = !{!1}\n!llvm.module.flags = !{!4, !5}\n!llvm.ident = !{!6}\n"));
}

#[test]
fn coverage_seed_declares_counters_before_any_hit() {
    let program = Program {
        statements: vec![
            Stmt::Expr { value: Expr::Integer(1), position: Some(Position { line: 5, column: 0 }) },
            Stmt::Expr { value: Expr::Integer(2), position: Some(Position { line: 3, column: 0 }) },
        ],
    };
    let mut cg = coverage_codegen();
    cg.cov_seed(&program);
    cg.begin_function("main", None);
    cg.cov_emit_boot();
    cg.cov_hit(Some(Position { line: 5, column: 0 }));
    cg.emit("ret i32 0");
    cg.finish_function("i32", "main", &[]);
    let ir = cg.render();
    assert!(ir.contains("@__osp_cov_hits.3 = internal global i64 0\n@__osp_cov_hits.5 = internal global i64 0\n"));
    assert_eq!(count(&ir, "@__osp_cov_hits.5 = internal global"), 1);
    assert!(ir.contains("  call void @__osp_cov_init()\n  %r0 = load i64, i64* @__osp_cov_hits.5\n  %r1 = add i64 %r0, 1\n  store i64 %r1, i64* @__osp_cov_hits.5\n"));
    assert!(ir.contains(
        "define internal void @__osp_cov_init() {\nentry:\n  call void @osp_cov_register_line(i64 3, i64* @__osp_cov_hits.3)\n  call void @osp_cov_register_line(i64 5, i64* @__osp_cov_hits.5)\n  ret void\n}"
    ));
}

#[test]
fn inline_functions_bump_their_definition_line() {
    let mut cg = coverage_codegen();
    cg.cov_note_inline_fn("helper", Some(Position { line: 0, column: 0 }));
    cg.begin_function("main", None);
    cg.cov_hit_inline_fn("helper");
    cg.cov_hit_inline_fn("unknown");
    cg.finish_function("void", "main", &[]);
    let ir = cg.render();
    // a line of 0 counts as line 1
    assert_eq!(count(&ir, "load i64, i64* @__osp_cov_hits.1"), 1);
    assert_eq!(count(&ir, "store i64"), 1);
}

#[test]
fn words_round_trip_through_the_uniform_abi() {
    let mut cg = Codegen::new();
    cg.begin_function("f", None);
    let w = box_to_i64(&mut cg, Value::new("%s", LType::Str));
    assert_eq!(w.operand, "%r0");
    let same = box_to_i64(&mut cg, Value::new("%n", LType::I64));
    assert_eq!(same.operand, "%n");
    let back = from_word(&mut cg, "%r0", Some(LType::Str));
    assert_eq!((back.operand.as_str(), back.ty), ("%r1", LType::Str));
    let raw = from_word(&mut cg, "%w", None);
    assert_eq!((raw.operand.as_str(), raw.ty), ("%w", LType::I64));
    let res = box_to_i64(&mut cg, Value::result("%res", LType::I64));
    assert_eq!(res.operand, "%r3");
    cg.finish_function("void", "f", &[]);
    let ir = cg.render();
    assert!(ir.contains("  %r0 = ptrtoint i8* %s to i64\n  %r1 = inttoptr i64 %r0 to i8*\n"));
    assert!(ir.contains("  %r2 = bitcast { i64, i8, i8* }* %res to i8*\n  %r3 = ptrtoint i8* %r2 to i64\n"));
}

#[test]
fn comparisons_pick_text_float_or_integer_forms() {
    let mut cg = Codegen::new();
    cg.begin_function("f", None);
    let s = gen_comparison(&mut cg, "==", Value::new("%a", LType::Str), Value::new("%b", LType::Ptr)).unwrap();
    assert_eq!((s.operand.as_str(), s.ty), ("%r0", LType::I1));
    let d = gen_comparison(&mut cg, "<", Value::new("%x", LType::Double), Value::new("true", LType::I1)).unwrap();
    assert_eq!(d.operand, "%r2");
    let i = gen_comparison(&mut cg, ">=", Value::new("%n", LType::I64), Value::new("%k", LType::I32)).unwrap();
    assert_eq!(i.operand, "%r5");
    cg.finish_function("void", "f", &[]);
    let ir = cg.render();
    assert!(ir.contains("declare i32 @strcmp(i8*, i8*)"));
    assert!(ir.contains("  %r1 = call i32 @strcmp(i8* %a, i8* %b)\n  %r0 = icmp eq i32 %r1, 0\n"));
    assert!(ir.contains("  %r3 = zext i1 true to i64\n  %r4 = sitofp i64 %r3 to double\n  %r2 = fcmp olt double %x, %r4\n"));
    assert!(ir.contains("  %r6 = sext i32 %k to i64\n  %r5 = icmp sge i64 %n, %r6\n"));
}

#[test]
fn comparisons_of_mismatched_operands_are_errors() {
    let mut cg = Codegen::new();
    cg.begin_function("f", None);
    let number = gen_comparison(&mut cg, "<", Value::new("%x", LType::Double), Value::new("%s", LType::Str));
    assert_eq!(number.unwrap_err(), CodegenError::invalid("expected a number"));
    let integer = gen_comparison(&mut cg, "==", Value::new("%n", LType::I64), Value::new("%s", LType::Str));
    assert_eq!(
        integer.unwrap_err(),
        CodegenError::invalid("expected an integer, found a string/handle")
    );
}
