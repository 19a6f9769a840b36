use osprey_codegen::builder::Codegen;
use osprey_codegen::collections::{
    concat_handles, list_builder_new, list_builder_push, list_builder_seal, merge_handles,
};
use osprey_codegen::listlit::to_runtime_list;
use osprey_codegen::{LType, Value};

fn function_text(ir: &str, name: &str) -> String {
    let start = ir.find(&format!("define i64 @{name}(")).expect("the function");
    let end = ir[start..].find("\n}").expect("its end") + start;
    ir[start..end + 2].to_string()
}

fn finish(mut cg: Codegen, name: &str) -> String {
    cg.emit("ret i64 0");
    cg.finish_function("i64", name, &[]);
    cg.render()
}

#[test]
fn a_flat_literal_is_rebuilt_element_by_element_as_a_runtime_list() {
    let mut cg = Codegen::new();
    cg.begin_function("f", None);
    let v = Value::new("%lit", LType::Ptr).with_owner(Some("[]double".to_string()));
    let r = to_runtime_list(&mut cg, v);
    assert_eq!(r.operand, "%r13");
    assert_eq!(r.ty, LType::Ptr);
    assert_eq!(r.osp_ty.as_deref(), Some("List#double"));
    let ir = finish(cg, "f");
    assert!(ir.contains("declare i8* @osprey_list_builder_new_of(i32)"));
    assert!(ir.contains("declare void @osprey_list_builder_push_borrowed(i8*, i64)"));
    assert!(ir.contains("declare i8* @osprey_list_builder_seal(i8*)"));
    let expected = [
        "define i64 @f() #0 {",
        "entry:",
        "  %arc.s0 = alloca i8*",
        "  store i8* null, i8** %arc.s0",
        "  %r0 = getelementptr { i64, i8* }, { i64, i8* }* %lit, i32 0, i32 0",
        "  %r1 = load i64, i64* %r0",
        "  %r2 = getelementptr { i64, i8* }, { i64, i8* }* %lit, i32 0, i32 1",
        "  %r3 = load i8*, i8** %r2",
        "  %r4 = call i8* @osprey_list_builder_new_of(i32 0)",
        "  %r5 = bitcast i8* %r3 to double*",
        "  %r6 = alloca i64",
        "  store i64 0, i64* %r6",
        "  br label %L0",
        "L0:",
        "  %r7 = load i64, i64* %r6",
        "  %r8 = icmp slt i64 %r7, %r1",
        "  br i1 %r8, label %L1, label %L3",
        "L1:",
        "  %r9 = getelementptr double, double* %r5, i64 %r7",
        "  %r10 = load double, double* %r9",
        "  %r11 = bitcast double %r10 to i64",
        "  call void @osprey_list_builder_push_borrowed(i8* %r4, i64 %r11)",
        "  br label %L2",
        "L2:",
        "  %r12 = add i64 %r7, 1",
        "  store i64 %r12, i64* %r6",
        "  br label %L0",
        "L3:",
        "  %r13 = call i8* @osprey_list_builder_seal(i8* %r4)",
        "  store i8* %r13, i8** %arc.s0",
        "  ret i64 0",
        "}",
    ]
    .join("\n");
    assert_eq!(function_text(&ir, "f"), expected);
}

#[test]
fn a_literal_of_words_needs_no_widening_and_a_string_literal_is_managed() {
    let mut cg = Codegen::new();
    cg.begin_function("g", None);
    let ints = Value::new("%a", LType::Ptr).with_owner(Some("[]i64".to_string()));
    let r = to_runtime_list(&mut cg, ints);
    // no widening register: the seal is one register earlier
    assert_eq!(r.operand, "%r12");
    assert_eq!(r.osp_ty.as_deref(), Some("List#i64"));
    let strs = Value::new("%b", LType::Ptr).with_owner(Some("[]i8*".to_string()));
    let s = to_runtime_list(&mut cg, strs);
    assert_eq!(s.osp_ty.as_deref(), Some("List#i8*"));
    let ir = finish(cg, "g");
    let body = function_text(&ir, "g");
    assert!(body.contains("call void @osprey_list_builder_push_borrowed(i8* %r4, i64 %r10)"));
    assert!(body.contains("= call i8* @osprey_list_builder_new_of(i32 1)"));
    assert!(body.contains("= ptrtoint i8* "));
}

#[test]
fn a_value_that_is_not_a_flat_literal_passes_through_untouched() {
    let mut cg = Codegen::new();
    cg.begin_function("h", None);
    let v = Value::handle("%xs", "List#i64");
    let r = to_runtime_list(&mut cg, v);
    assert_eq!(r.operand, "%xs");
    assert_eq!(r.osp_ty.as_deref(), Some("List#i64"));
    assert_eq!(cg.fresh_reg(), "%r0");
    let plain = to_runtime_list(&mut cg, Value::new("%r9", LType::I64));
    assert_eq!(plain.operand, "%r9");
    assert_eq!(plain.osp_ty, None);
    let body = function_text(&finish(cg, "h"), "h");
    assert_eq!(body, "define i64 @h() #0 {\nentry:\n  ret i64 0\n}");
}

#[test]
fn concatenation_keeps_the_first_known_element_tag_and_owns_the_result() {
    let mut cg = Codegen::new();
    cg.begin_function("c", None);
    let a = Value::handle("%a", "List");
    let b = Value::handle("%b", "List#double");
    let r = concat_handles(&mut cg, &a, &b);
    assert_eq!(r.operand, "%r0");
    assert_eq!(r.osp_ty.as_deref(), Some("List#double"));
    let both = concat_handles(&mut cg, &Value::handle("%c", "List#i1"), &b);
    assert_eq!(both.osp_ty.as_deref(), Some("List#i1"));
    let none = concat_handles(&mut cg, &a, &a);
    assert_eq!(none.osp_ty.as_deref(), Some("List"));
    let ir = finish(cg, "c");
    assert!(ir.contains("declare i8* @osprey_list_concat(i8*, i8*)"));
    let body = function_text(&ir, "c");
    assert!(body.contains("  %r0 = call i8* @osprey_list_concat(i8* %a, i8* %b)\n  store i8* %r0, i8** %arc.s0"));
    assert!(body.contains("  %arc.s2 = alloca i8*"));
}

#[test]
fn a_merge_is_a_map_handle_tagged_by_either_operand() {
    let mut cg = Codegen::new();
    cg.begin_function("m", None);
    let r = merge_handles(&mut cg, &Value::handle("%m", "Map"), &Value::handle("%n", "Map#i8*"));
    assert_eq!(r.osp_ty.as_deref(), Some("Map#i8*"));
    assert_eq!(r.ty, LType::Ptr);
    let ir = finish(cg, "m");
    assert!(ir.contains("  %r0 = call i8* @osprey_map_merge(i8* %m, i8* %n)"));
}

#[test]
fn a_builder_pushes_and_seals_into_an_owned_list() {
    let mut cg = Codegen::new();
    cg.begin_function("b", None);
    let bld = list_builder_new(&mut cg);
    assert_eq!(bld, "%r0");
    list_builder_push(&mut cg, &bld, "7", "0");
    let sealed = list_builder_seal(&mut cg, &bld);
    assert_eq!(sealed.operand, "%r1");
    assert_eq!(sealed.osp_ty.as_deref(), Some("List"));
    let ir = finish(cg, "b");
    assert!(ir.contains("declare i8* @osprey_list_builder_new()"));
    assert!(ir.contains("declare void @osprey_list_builder_push_of(i8*, i64, i32)"));
    let body = function_text(&ir, "b");
    let expected = [
        "define i64 @b() #0 {",
        "entry:",
        "  %arc.s0 = alloca i8*",
        "  store i8* null, i8** %arc.s0",
        "  %r0 = call i8* @osprey_list_builder_new()",
        "  call void @osprey_list_builder_push_of(i8* %r0, i64 7, i32 0)",
        "  %r1 = call i8* @osprey_list_builder_seal(i8* %r0)",
        "  store i8* %r1, i8** %arc.s0",
        "  ret i64 0",
        "}",
    ]
    .join("\n");
    assert_eq!(body, expected);
}
