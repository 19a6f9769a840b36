use osprey_codegen::builder::Codegen;
use osprey_codegen::expr::{emit_overflow_arith, i64_div_guards, open_result_guard};
use osprey_codegen::{CodegenError, LType, Value};

fn body(mut cg: Codegen, name: &str) -> String {
    cg.emit("ret i64 0");
    cg.finish_function("i64", name, &[]);
    let ir = cg.render();
    let start = ir.find(&format!("define i64 @{name}(")).unwrap();
    let end = ir[start..].find("\n}").unwrap() + start;
    ir[start..end + 2].to_string()
}

#[test]
fn division_guards_test_a_zero_divisor_and_the_min_over_minus_one_pair() {
    let mut cg = Codegen::new();
    cg.begin_function("d", None);
    let (l, r, zero, overflow) =
        i64_div_guards(&mut cg, Value::new("%a", LType::I64), Value::new("%b", LType::I1)).unwrap();
    assert_eq!(l.operand, "%a");
    assert_eq!(r.operand, "%r0");
    assert_eq!(zero, "%r1");
    assert_eq!(overflow, "%r4");
    let expected = [
        "  %r0 = zext i1 %b to i64",
        "  %r1 = icmp eq i64 %r0, 0",
        "  %r2 = icmp eq i64 %a, -9223372036854775808",
        "  %r3 = icmp eq i64 %r0, -1",
        "  %r4 = and i1 %r2, %r3",
    ]
    .join("\n");
    assert!(body(cg, "d").contains(&expected));
}

#[test]
fn division_guards_refuse_a_string_operand() {
    let mut cg = Codegen::new();
    cg.begin_function("e", None);
    let err = i64_div_guards(&mut cg, Value::new("%s", LType::Str), Value::new("%b", LType::I64)).unwrap_err();
    assert_eq!(err, CodegenError::Invalid("expected an integer, found a string/handle".to_string()));
    assert_eq!(cg.fresh_reg(), "%r0");
}

#[test]
fn an_overflow_intrinsic_yields_its_flag_and_the_wrapped_extraction() {
    let mut cg = Codegen::new();
    cg.begin_function("o", None);
    let (wrapped, bad) =
        emit_overflow_arith(&mut cg, "smul", Value::new("%x", LType::I64), Value::new("%y", LType::I64)).unwrap();
    assert_eq!(wrapped, "extractvalue { i64, i1 } %r0, 0");
    assert_eq!(bad, "%r1");
    let text = body(cg, "o");
    assert!(text.contains(
        "  %r0 = call { i64, i1 } @llvm.smul.with.overflow.i64(i64 %x, i64 %y)\n  %r1 = extractvalue { i64, i1 } %r0, 1"
    ));
    let mut cg2 = Codegen::new();
    cg2.begin_function("q", None);
    let _ = emit_overflow_arith(&mut cg2, "sadd", Value::new("1", LType::I64), Value::new("2", LType::I64)).unwrap();
    cg2.emit("ret i64 0");
    cg2.finish_function("i64", "q", &[]);
    assert!(cg2.render().contains("declare { i64, i1 } @llvm.sadd.with.overflow.i64(i64, i64)"));
}

#[test]
fn a_result_guard_branches_to_failure_or_success_and_draws_the_join() {
    let mut cg = Codegen::new();
    cg.begin_function("g", None);
    let g = open_result_guard(&mut cg, "%bad");
    assert_eq!(g.bad, "L0");
    assert_eq!(g.end, "L2");
    assert_eq!(g.mark, 0);
    assert_eq!(cg.cur_block(), "L1");
    assert!(body(cg, "g").contains("  br i1 %bad, label %L0, label %L1\nL1:"));
}
