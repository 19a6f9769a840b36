use osprey_codegen::anybox::any_to_string;
use osprey_codegen::builder::Codegen;
use osprey_codegen::expr::gen_str_concat;
use osprey_codegen::runtime::{
    bool_to_string, float_to_string, format_sized, gen_print, int_to_string,
    result_payload_or_error_string, sprintf_wrap, to_string_value,
};
use osprey_codegen::{CodegenError, LType, Value};

fn function_text(ir: &str, head: &str) -> String {
    let start = ir.find(head).expect("the function");
    let end = ir[start..].find("\n}").expect("its end") + start;
    ir[start..end + 2].to_string()
}

fn finish(mut cg: Codegen, name: &str) -> String {
    cg.emit("ret i64 0");
    cg.finish_function("i64", name, &[]);
    cg.render()
}

#[test]
fn a_result_renders_as_success_of_its_payload_or_error_of_its_message() {
    let mut cg = Codegen::new();
    cg.begin_function("f", None);
    let s = to_string_value(&mut cg, Value::result("%res", LType::I64)).unwrap();
    assert_eq!(s.operand, "%r21");
    assert_eq!(s.ty, LType::Str);
    assert_eq!(cg.cur_block(), "L2");
    let ir = finish(cg, "f");
    assert!(ir.contains("@.str.0 = private unnamed_addr constant [5 x i8] c\"%lld\\00\""));
    assert!(ir.contains("@.str.1 = private unnamed_addr constant [12 x i8] c\"Success(%s)\\00\""));
    assert!(ir.contains("@.str.2 = private unnamed_addr constant [10 x i8] c\"Error(%s)\\00\""));
    assert!(ir.contains("@.str.3 = private unnamed_addr constant [6 x i8] c\"Error\\00\""));
    assert!(ir.contains("declare i64 @osp_format_size(i8*, ...)"));
    assert!(ir.contains("declare void @osp_format_into(i8*, i64, i8*, ...)"));
    assert!(ir.contains("declare i32 @sprintf(i8*, i8*, ...)"));
    let expected = [
        "define i64 @f() #0 {",
        "entry:",
        "  %arc.s2 = alloca i8*",
        "  store i8* null, i8** %arc.s2",
        "  %arc.s1 = alloca i8*",
        "  store i8* null, i8** %arc.s1",
        "  %arc.s0 = alloca i8*",
        "  store i8* null, i8** %arc.s0",
        "  %r0 = getelementptr { i64, i8, i8* }, { i64, i8, i8* }* %res, i32 0, i32 1",
        "  %r1 = load i8, i8* %r0",
        "  %r2 = icmp eq i8 %r1, 0",
        "  br i1 %r2, label %L0, label %L1",
        "L0:",
        "  %r3 = getelementptr { i64, i8, i8* }, { i64, i8, i8* }* %res, i32 0, i32 0",
        "  %r4 = load i64, i64* %r3",
        "  %r5 = getelementptr [5 x i8], [5 x i8]* @.str.0, i64 0, i64 0",
        "  %r6 = call i8* @osp_alloc(i64 21)",
        "  %r7 = call i32 (i8*, i8*, ...) @sprintf(i8* %r6, i8* %r5, i64 %r4)",
        "  store i8* %r6, i8** %arc.s0",
        "  %r8 = getelementptr [12 x i8], [12 x i8]* @.str.1, i64 0, i64 0",
        "  %r9 = call i64 (i8*, ...) @osp_format_size(i8* %r8, i8* %r6)",
        "  %r10 = add i64 %r9, 1",
        "  %r11 = call i8* @osp_alloc(i64 %r10)",
        "  call void (i8*, i64, i8*, ...) @osp_format_into(i8* %r11, i64 %r10, i8* %r8, i8* %r6)",
        "  store i8* %r11, i8** %arc.s1",
        "  br label %L2",
        "L1:",
        "  %r12 = getelementptr { i64, i8, i8* }, { i64, i8, i8* }* %res, i32 0, i32 2",
        "  %r13 = load i8*, i8** %r12",
        "  %r14 = icmp eq i8* %r13, null",
        "  br i1 %r14, label %L4, label %L3",
        "L3:",
        "  %r15 = getelementptr [10 x i8], [10 x i8]* @.str.2, i64 0, i64 0",
        "  %r16 = call i64 (i8*, ...) @osp_format_size(i8* %r15, i8* %r13)",
        "  %r17 = add i64 %r16, 1",
        "  %r18 = call i8* @osp_alloc(i64 %r17)",
        "  call void (i8*, i64, i8*, ...) @osp_format_into(i8* %r18, i64 %r17, i8* %r15, i8* %r13)",
        "  store i8* %r18, i8** %arc.s2",
        "  br label %L5",
        "L4:",
        "  %r19 = getelementptr [6 x i8], [6 x i8]* @.str.3, i64 0, i64 0",
        "  br label %L5",
        "L5:",
        "  %r20 = phi i8* [ %r18, %L3 ], [ %r19, %L4 ]",
        "  br label %L2",
        "L2:",
        "  %r21 = phi i8* [ %r11, %L0 ], [ %r20, %L5 ]",
        "  ret i64 0",
        "}",
    ]
    .join("\n");
    assert_eq!(function_text(&ir, "define i64 @f("), expected);
}

#[test]
fn an_assertion_operand_renders_a_success_as_its_bare_payload() {
    let mut cg = Codegen::new();
    cg.begin_function("g", None);
    let s = result_payload_or_error_string(&mut cg, &Value::result("%res", LType::Str)).unwrap();
    let ir = finish(cg, "g");
    assert!(!ir.contains("Success(%s)"));
    let body = function_text(&ir, "define i64 @g(");
    assert!(body.contains("  br label %L2\nL1:"));
    assert!(body.contains(&format!("  {} = phi i8* [ %r4, %L0 ], [ ", s.operand)));
}

#[test]
fn scalars_render_through_select_sprintf_and_the_float_runtime() {
    let mut cg = Codegen::new();
    cg.begin_function("h", None);
    let b = bool_to_string(&mut cg, &Value::new("%b", LType::I1));
    assert_eq!(b.operand, "%r2");
    let d = float_to_string(&mut cg, &Value::new("%d", LType::Double));
    assert_eq!(d.operand, "%r3");
    let i = int_to_string(&mut cg, Value::new("%w", LType::I1)).unwrap();
    assert_eq!(i.operand, "%r6");
    let refused = int_to_string(&mut cg, Value::new("%s", LType::Str));
    assert_eq!(
        refused.unwrap_err(),
        CodegenError::Invalid("expected an integer, found a string/handle".to_string())
    );
    let same = to_string_value(&mut cg, Value::handle("%p", "Point")).unwrap();
    assert_eq!(same.operand, "%p");
    assert_eq!(same.ty, LType::Str);
    assert_eq!(same.osp_ty, None);
    let ir = finish(cg, "h");
    assert!(ir.contains("@.str.0 = private unnamed_addr constant [5 x i8] c\"true\\00\""));
    assert!(ir.contains("@.str.1 = private unnamed_addr constant [6 x i8] c\"false\\00\""));
    assert!(ir.contains("declare i8* @osp_float_to_string(double)"));
    let body = function_text(&ir, "define i64 @h(");
    let expected_tail = [
        "  %r0 = getelementptr [5 x i8], [5 x i8]* @.str.0, i64 0, i64 0",
        "  %r1 = getelementptr [6 x i8], [6 x i8]* @.str.1, i64 0, i64 0",
        "  %r2 = select i1 %b, i8* %r0, i8* %r1",
        "  %r3 = call i8* @osp_float_to_string(double %d)",
        "  store i8* %r3, i8** %arc.s0",
        "  %r4 = zext i1 %w to i64",
        "  %r5 = getelementptr [5 x i8], [5 x i8]* @.str.2, i64 0, i64 0",
        "  %r6 = call i8* @osp_alloc(i64 21)",
        "  %r7 = call i32 (i8*, i8*, ...) @sprintf(i8* %r6, i8* %r5, i64 %r4)",
        "  store i8* %r6, i8** %arc.s1",
        "  ret i64 0",
        "}",
    ]
    .join("\n");
    assert!(body.ends_with(&expected_tail));
}

#[test]
fn the_erased_renderer_is_emitted_once_and_called_per_value() {
    let mut cg = Codegen::new();
    cg.begin_function("k", None);
    let a = any_to_string(&mut cg, &Value::new("%x", LType::Any));
    let b = any_to_string(&mut cg, &Value::new("%y", LType::Any));
    assert_eq!(a.operand, "%r0");
    assert_eq!(b.operand, "%r1");
    let ir = finish(cg, "k");
    assert_eq!(ir.matches("define i8* @osp.any.to_string(").count(), 1);
    let renderer = [
        "define i8* @osp.any.to_string(i8* %box) #0 {",
        "entry:",
        "  %r0 = icmp eq i8* %box, null",
        "  br i1 %r0, label %L0, label %L1",
        "L0:",
        "  %r1 = getelementptr [5 x i8], [5 x i8]* @.str.0, i64 0, i64 0",
        "  ret i8* %r1",
        "L1:",
        "  %r2 = bitcast i8* %box to { i8*, i64 }*",
        "  %r3 = getelementptr { i8*, i64 }, { i8*, i64 }* %r2, i32 0, i32 0",
        "  %r4 = load i8*, i8** %r3",
        "  %r5 = getelementptr { i8*, i64 }, { i8*, i64 }* %r2, i32 0, i32 1",
        "  %r6 = load i64, i64* %r5",
        "  %r7 = bitcast i8* %r4 to { i64, i8* }*",
        "  %r8 = getelementptr { i64, i8* }, { i64, i8* }* %r7, i32 0, i32 1",
        "  %r9 = load i8*, i8** %r8",
        "  %r10 = bitcast i8* %r9 to i8* (i8*, i64)*",
        "  %r11 = call i8* %r10(i8* %r4, i64 %r6)",
        "  ret i8* %r11",
        "}",
    ]
    .join("\n");
    assert_eq!(function_text(&ir, "define i8* @osp.any.to_string("), renderer);
    assert!(ir.contains("@.str.0 = private unnamed_addr constant [5 x i8] c\"null\\00\""));
    let body = function_text(&ir, "define i64 @k(");
    assert!(body.contains("  %r0 = call i8* @osp.any.to_string(i8* %x)\n  store i8* %r0, i8** %arc.s0"));
    assert!(body.contains("  %r1 = call i8* @osp.any.to_string(i8* %y)"));
}

#[test]
fn a_sized_format_measures_then_fills_an_exact_buffer() {
    let mut cg = Codegen::new();
    cg.begin_function("m", None);
    let args = vec!["i8* %a".to_string(), "i64 %n".to_string()];
    let v = format_sized(&mut cg, "%s=%lld", &args);
    assert_eq!(v.operand, "%r3");
    let w = sprintf_wrap(&mut cg, "<%s>", "%t");
    assert_eq!(w, "%r7");
    let ir = finish(cg, "m");
    let body = function_text(&ir, "define i64 @m(");
    assert!(body.contains("  %r1 = call i64 (i8*, ...) @osp_format_size(i8* %r0, i8* %a, i64 %n)"));
    assert!(body.contains("  %r2 = add i64 %r1, 1\n  %r3 = call i8* @osp_alloc(i64 %r2)"));
    assert!(body.contains("  call void (i8*, i64, i8*, ...) @osp_format_into(i8* %r3, i64 %r2, i8* %r0, i8* %a, i64 %n)"));
    assert!(body.contains("@osp_format_into(i8* %r7, i64 %r6, i8* %r4, i8* %t)"));
    assert!(ir.contains("[8 x i8] c\"%s=%lld\\00\""));
}

#[test]
fn concatenation_renders_both_operands_and_copies_into_a_fresh_buffer() {
    let mut cg = Codegen::new();
    cg.begin_function("c", None);
    let r = gen_str_concat(&mut cg, Value::new("%s", LType::Str), Value::new("%i", LType::I32)).unwrap();
    assert_eq!(r.operand, "%r8");
    assert_eq!(r.ty, LType::Str);
    let ir = finish(cg, "c");
    assert!(ir.contains("declare i64 @osp_strlen(i8*)"));
    assert!(ir.contains("declare i8* @strcpy(i8*, i8*)"));
    assert!(ir.contains("declare i8* @strcat(i8*, i8*)"));
    let body = function_text(&ir, "define i64 @c(");
    let expected = [
        "  %r0 = sext i32 %i to i64",
        "  %r1 = getelementptr [5 x i8], [5 x i8]* @.str.0, i64 0, i64 0",
        "  %r2 = call i8* @osp_alloc(i64 21)",
        "  %r3 = call i32 (i8*, i8*, ...) @sprintf(i8* %r2, i8* %r1, i64 %r0)",
        "  store i8* %r2, i8** %arc.s0",
        "  %r4 = call i64 @osp_strlen(i8* %s)",
        "  %r5 = call i64 @osp_strlen(i8* %r2)",
        "  %r6 = add i64 %r4, %r5",
        "  %r7 = add i64 %r6, 1",
        "  %r8 = call i8* @osp_alloc(i64 %r7)",
        "  %r9 = call i8* @strcpy(i8* %r8, i8* %s)",
        "  %r10 = call i8* @strcat(i8* %r8, i8* %r2)",
        "  store i8* %r8, i8** %arc.s1",
    ]
    .join("\n");
    assert!(body.contains(&expected));
}

#[test]
fn print_writes_the_rendered_text_through_puts_and_yields_unit() {
    let mut cg = Codegen::new();
    cg.begin_function("p", None);
    let u = gen_print(&mut cg, Value::new("%q", LType::Str)).unwrap();
    assert_eq!(u.operand, "0");
    assert_eq!(u.ty, LType::I64);
    let ir = finish(cg, "p");
    assert!(ir.contains("declare i32 @puts(i8*)"));
    assert!(function_text(&ir, "define i64 @p(").contains("  %r0 = call i32 @puts(i8* %q)\n  ret i64 0"));
}
